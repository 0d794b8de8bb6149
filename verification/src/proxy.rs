//! Terminal proxy loop used by every mode once a pty master is at hand.

use vstd::prelude::*;

use crate::abi::{EINTR, EIO};
use crate::error::{msg, Error, ErrorView};

verus! {

/// How long to wait before asking again for the slave of a pty that nobody
/// has opened yet, in milliseconds.
pub const NO_SLAVE_DELAY: u64 = 200;

/// One of the two ends that traffic is relayed between.
#[derive(Debug, Clone, Copy, PartialEq, Eq, Structural)]
pub enum End {
    /// The current terminal.
    Terminal,
    /// The pty master.
    Master,
}

/// The other end.
pub open spec fn other(end: End) -> End {
    match end {
        End::Terminal => End::Master,
        End::Master => End::Terminal,
    }
}

/// What a read brought.
#[derive(Debug, Clone, Copy, PartialEq, Eq, Structural)]
pub enum ReadOutcome {
    Data(usize),
    Eof,
    /// EIO: the pty currently has no slave open.
    NoSlave,
    /// Interrupted: read again.
    Again,
}

pub open spec fn read_meaning(n: i64, errno: i32) -> ReadOutcome {
    if n > 0 {
        ReadOutcome::Data(n as usize)
    } else if n == 0 {
        ReadOutcome::Eof
    } else if errno == EIO {
        ReadOutcome::NoSlave
    } else if errno == EINTR {
        ReadOutcome::Again
    } else {
        ReadOutcome::Eof
    }
}

/// What a read brought, by what read(2) returned.
pub fn read_once(n: i64, errno: i32) -> (r: ReadOutcome)
    requires
        n <= usize::MAX,
    ensures
        r == read_meaning(n, errno),
{
    if n > 0 {
        return ReadOutcome::Data(n as usize);
    }
    if n == 0 {
        return ReadOutcome::Eof;
    }
    if errno == EIO {
        return ReadOutcome::NoSlave;
    }
    if errno == EINTR {
        return ReadOutcome::Again;
    }
    // A dead stdin (terminal hangup) ends the proxy like EOF.
    ReadOutcome::Eof
}

/// What the proxy asks for.
#[derive(Debug)]
pub enum Request {
    /// Whether the standard input is a terminal.
    IsTerminal,
    /// Put the terminal into raw mode.
    MakeRaw,
    /// Watch the terminal for changes of its size, and forward the size.
    Watch,
    /// Wait until an end has something to read, or for a while.
    Poll,
    /// Forward the size of the terminal.
    ForwardSize,
    Read { from: End },
    Write { to: End, data: Vec<u8> },
    /// Whether the spawned command has exited.
    ChildDone,
    Sleep { ms: u64 },
    /// Put the terminal back as it was.
    RestoreTerminal,
}

#[verifier::ext_equal]
pub enum RequestView {
    IsTerminal,
    MakeRaw,
    Watch,
    Poll,
    ForwardSize,
    Read { from: End },
    Write { to: End, data: Seq<u8> },
    ChildDone,
    Sleep { ms: u64 },
    RestoreTerminal,
}

impl View for Request {
    type V = RequestView;

    open spec fn view(&self) -> RequestView {
        match self {
            Request::IsTerminal => RequestView::IsTerminal,
            Request::MakeRaw => RequestView::MakeRaw,
            Request::Watch => RequestView::Watch,
            Request::Poll => RequestView::Poll,
            Request::ForwardSize => RequestView::ForwardSize,
            Request::Read { from } => RequestView::Read { from: *from },
            Request::Write { to, data } => RequestView::Write { to: *to, data: data@ },
            Request::ChildDone => RequestView::ChildDone,
            Request::Sleep { ms } => RequestView::Sleep { ms: *ms },
            Request::RestoreTerminal => RequestView::RestoreTerminal,
        }
    }
}

/// What a request brought back.
#[derive(Debug)]
pub enum Answer {
    Done,
    Yes(bool),
    /// Which ends have something to read, and whether the size of the
    /// terminal changed.
    Ready { winch: bool, terminal: bool, master: bool },
    Data(Vec<u8>),
    Eof,
    NoSlave,
    /// So many bytes were written.
    Wrote(usize),
    Failed(i32),
}

pub enum AnswerView {
    Done,
    Yes(bool),
    Ready { winch: bool, terminal: bool, master: bool },
    Data(Seq<u8>),
    Eof,
    NoSlave,
    Wrote(nat),
    Failed(i32),
}

impl View for Answer {
    type V = AnswerView;

    open spec fn view(&self) -> AnswerView {
        match self {
            Answer::Done => AnswerView::Done,
            Answer::Yes(yes) => AnswerView::Yes(*yes),
            Answer::Ready { winch, terminal, master } => AnswerView::Ready {
                winch: *winch,
                terminal: *terminal,
                master: *master,
            },
            Answer::Data(data) => AnswerView::Data(data@),
            Answer::Eof => AnswerView::Eof,
            Answer::NoSlave => AnswerView::NoSlave,
            Answer::Wrote(n) => AnswerView::Wrote(*n as nat),
            Answer::Failed(errno) => AnswerView::Failed(*errno),
        }
    }
}

/// Whether `answer` can be the answer to `request`. A write does not write
/// more than it was given.
pub open spec fn answers(request: RequestView, answer: AnswerView) -> bool {
    match request {
        RequestView::IsTerminal => answer is Yes,
        RequestView::MakeRaw => answer is Done || answer is Failed,
        RequestView::Poll => answer is Ready || answer is Failed,
        RequestView::Read { .. } => answer is Data || answer is Eof || answer is NoSlave,
        RequestView::Write { data, .. } => {
            ||| answer is Failed
            ||| answer matches AnswerView::Wrote(n) && n <= data.len()
        },
        RequestView::ChildDone => answer is Yes || answer is Failed,
        _ => answer is Done,
    }
}

/// What the proxy does next.
pub enum Step {
    Do(Request),
    Finish(Result<(), Error>),
}

#[verifier::ext_equal]
pub enum StepView {
    Do(RequestView),
    Finish(Result<(), ErrorView>),
}

impl View for Step {
    type V = StepView;

    open spec fn view(&self) -> StepView {
        match self {
            Step::Do(request) => StepView::Do(request@),
            Step::Finish(Ok(value)) => StepView::Finish(Ok(*value)),
            Step::Finish(Err(e)) => StepView::Finish(Err(e@)),
        }
    }
}

/// Which request is outstanding. The flag says whether the terminal has
/// something to read once the master was served.
#[derive(Debug, Clone, Copy, PartialEq, Eq, Structural)]
pub enum Phase {
    Checking,
    Raising,
    Watching,
    Polling,
    Resizing { master: bool, terminal: bool },
    Reading { from: End, terminal: bool },
    Writing { to: End, terminal: bool },
    Asking { terminal: bool },
    Sleeping { terminal: bool },
    Restoring,
    Over,
}

/// A relay between the current terminal and a pty master.
pub struct Proxy {
    exit_on_eio: bool,
    has_child: bool,
    /// What is still to be written.
    pending: Vec<u8>,
    /// Why the relay ends, when it is no good reason.
    trouble: Option<Error>,
    phase: Phase,
}

#[verifier::ext_equal]
pub struct ProxyView {
    pub exit_on_eio: bool,
    pub has_child: bool,
    pub pending: Seq<u8>,
    pub trouble: Option<ErrorView>,
    pub phase: Phase,
}

impl View for Proxy {
    type V = ProxyView;

    closed spec fn view(&self) -> ProxyView {
        ProxyView {
            exit_on_eio: self.exit_on_eio,
            has_child: self.has_child,
            pending: self.pending@,
            trouble: match self.trouble {
                Some(e) => Some(e@),
                None => None,
            },
            phase: self.phase,
        }
    }
}

pub type Transition = (ProxyView, StepView);

pub open spec fn not_a_terminal() -> ErrorView {
    ErrorView::Msg("stdin is not a terminal; proxy mode must run from a terminal"@)
}

pub open spec fn ask(p: ProxyView, phase: Phase, request: RequestView) -> Transition {
    (ProxyView { phase, ..p }, StepView::Do(request))
}

/// End at once, before the terminal was touched.
pub open spec fn abort(p: ProxyView, e: ErrorView) -> Transition {
    (ProxyView { phase: Phase::Over, ..p }, StepView::Finish(Err(e)))
}

/// End the relay: the terminal is restored on the way out.
pub open spec fn close(p: ProxyView, trouble: Option<ErrorView>) -> Transition {
    ask(ProxyView { trouble, ..p }, Phase::Restoring, RequestView::RestoreTerminal)
}

pub open spec fn poll(p: ProxyView) -> Transition {
    ask(p, Phase::Polling, RequestView::Poll)
}

/// Serve the terminal, if it has something to read.
pub open spec fn serve_terminal(p: ProxyView, terminal: bool) -> Transition {
    if terminal {
        ask(
            p,
            Phase::Reading { from: End::Terminal, terminal: false },
            RequestView::Read { from: End::Terminal },
        )
    } else {
        poll(p)
    }
}

/// Serve the ends that have something to read, the master first.
pub open spec fn serve(p: ProxyView, master: bool, terminal: bool) -> Transition {
    if master {
        ask(
            p,
            Phase::Reading { from: End::Master, terminal },
            RequestView::Read { from: End::Master },
        )
    } else {
        serve_terminal(p, terminal)
    }
}

/// Write what is pending; once nothing is, go on.
pub open spec fn write_on(p: ProxyView, to: End, terminal: bool) -> Transition {
    if p.pending.len() > 0 {
        ask(
            p,
            Phase::Writing { to, terminal },
            RequestView::Write { to, data: p.pending },
        )
    } else {
        serve_terminal(p, terminal)
    }
}

/// Nobody holds the slave open: that ends the relay when the spawned
/// command is done, or when there is none and the session is gone by that;
/// else wait and retry.
pub open spec fn no_slave(p: ProxyView, done: bool, terminal: bool) -> Transition {
    if done {
        close(p, None)
    } else {
        ask(p, Phase::Sleeping { terminal }, RequestView::Sleep { ms: NO_SLAVE_DELAY })
    }
}

/// What the proxy does with an answer.
pub open spec fn next(p: ProxyView, answer: AnswerView) -> Transition {
    match (p.phase, answer) {
        (Phase::Checking, AnswerView::Yes(yes)) => if yes {
            ask(p, Phase::Raising, RequestView::MakeRaw)
        } else {
            abort(p, not_a_terminal())
        },
        (Phase::Raising, AnswerView::Failed(errno)) => abort(p, ErrorView::Os(errno)),
        (Phase::Raising, _) => ask(p, Phase::Watching, RequestView::Watch),
        (Phase::Watching, _) => poll(p),
        (Phase::Polling, AnswerView::Failed(errno)) => if errno == EINTR {
            poll(p)
        } else {
            close(p, Some(ErrorView::Os(errno)))
        },
        (Phase::Polling, AnswerView::Ready { winch, terminal, master }) => if winch {
            ask(p, Phase::Resizing { master, terminal }, RequestView::ForwardSize)
        } else {
            serve(p, master, terminal)
        },
        (Phase::Resizing { master, terminal }, _) => serve(p, master, terminal),
        (Phase::Reading { from, terminal }, AnswerView::Data(data)) => write_on(
            ProxyView { pending: data, ..p },
            other(from),
            terminal,
        ),
        (Phase::Reading { from, terminal }, AnswerView::NoSlave) => if from == End::Terminal {
            close(p, None)
        } else if p.has_child {
            ask(p, Phase::Asking { terminal }, RequestView::ChildDone)
        } else {
            no_slave(p, p.exit_on_eio, terminal)
        },
        (Phase::Reading { .. }, _) => close(p, None),
        (Phase::Writing { to, terminal }, AnswerView::Wrote(n)) => write_on(
            ProxyView { pending: p.pending.skip(n as int), ..p },
            to,
            terminal,
        ),
        (Phase::Writing { to, terminal }, AnswerView::Failed(errno)) => if errno == EINTR {
            write_on(p, to, terminal)
        } else {
            close(p, Some(ErrorView::Os(errno)))
        },
        (Phase::Asking { terminal }, AnswerView::Yes(done)) => no_slave(p, done, terminal),
        (Phase::Asking { .. }, AnswerView::Failed(errno)) => close(p, Some(ErrorView::Os(errno))),
        (Phase::Sleeping { terminal }, _) => serve_terminal(p, terminal),
        (Phase::Restoring, _) => (
            ProxyView { phase: Phase::Over, trouble: None, ..p },
            StepView::Finish(
                match p.trouble {
                    Some(e) => Err(e),
                    None => Ok(()),
                },
            ),
        ),
        _ => arbitrary(),
    }
}

/// Whether `answer` can be the answer that the proxy is waiting for. A
/// write does not write more than it was given.
pub open spec fn expects(p: ProxyView, answer: AnswerView) -> bool {
    match p.phase {
        Phase::Checking => answer is Yes,
        Phase::Raising => answer is Done || answer is Failed,
        Phase::Polling => answer is Ready || answer is Failed,
        Phase::Reading { .. } => answer is Data || answer is Eof || answer is NoSlave,
        Phase::Writing { .. } => {
            ||| answer is Failed
            ||| answer matches AnswerView::Wrote(n) && n <= p.pending.len()
        },
        Phase::Asking { .. } => answer is Yes || answer is Failed,
        Phase::Over => false,
        _ => answer is Done,
    }
}

/// Relay traffic between the current terminal and a pty master until the
/// session ends. The terminal is put in raw mode for the duration and
/// restored on the way out.
///
/// `exit_on_eio`: a pty master reports EIO once every slave is closed.
/// In -T mode that means the stolen session is gone and we are done; in
/// -l mode it merely means nobody has opened the slave yet, so we wait
/// (unless the spawned command has exited).
pub fn run(exit_on_eio: bool, has_child: bool) -> (r: (Proxy, Step))
    ensures
        r.0@ == (ProxyView {
            exit_on_eio,
            has_child,
            pending: Seq::empty(),
            trouble: None,
            phase: Phase::Checking,
        }),
        r.0@ == begun(exit_on_eio, has_child),
        r.1@ == StepView::Do(RequestView::IsTerminal),
{
    (
        Proxy {
            exit_on_eio,
            has_child,
            pending: Vec::new(),
            trouble: None,
            phase: Phase::Checking,
        },
        Step::Do(Request::IsTerminal),
    )
}

impl Proxy {
    fn ask(&mut self, phase: Phase, request: Request) -> (r: Step)
        ensures
            final(self)@ == ask(old(self)@, phase, request@).0,
            r@ == ask(old(self)@, phase, request@).1,
    {
        self.phase = phase;
        Step::Do(request)
    }

    fn abort(&mut self, e: Error) -> (r: Step)
        ensures
            final(self)@ == abort(old(self)@, e@).0,
            r@ == abort(old(self)@, e@).1,
    {
        self.phase = Phase::Over;
        Step::Finish(Err(e))
    }

    fn close(&mut self, errno: Option<i32>) -> (r: Step)
        ensures
            ({
                let trouble = match errno {
                    Some(errno) => Some(ErrorView::Os(errno)),
                    None => None,
                };
                &&& final(self)@ == close(old(self)@, trouble).0
                &&& r@ == close(old(self)@, trouble).1
            }),
    {
        self.trouble = match errno {
            Some(errno) => Some(Error::Os(errno)),
            None => None,
        };
        self.ask(Phase::Restoring, Request::RestoreTerminal)
    }

    fn serve_terminal(&mut self, terminal: bool) -> (r: Step)
        ensures
            final(self)@ == serve_terminal(old(self)@, terminal).0,
            r@ == serve_terminal(old(self)@, terminal).1,
    {
        if terminal {
            self.ask(
                Phase::Reading { from: End::Terminal, terminal: false },
                Request::Read { from: End::Terminal },
            )
        } else {
            self.ask(Phase::Polling, Request::Poll)
        }
    }

    fn serve(&mut self, master: bool, terminal: bool) -> (r: Step)
        ensures
            final(self)@ == serve(old(self)@, master, terminal).0,
            r@ == serve(old(self)@, master, terminal).1,
    {
        if master {
            self.ask(
                Phase::Reading { from: End::Master, terminal },
                Request::Read { from: End::Master },
            )
        } else {
            self.serve_terminal(terminal)
        }
    }

    fn write_on(&mut self, to: End, terminal: bool) -> (r: Step)
        ensures
            final(self)@ == write_on(old(self)@, to, terminal).0,
            r@ == write_on(old(self)@, to, terminal).1,
    {
        if self.pending.len() > 0 {
            let data: Vec<u8> = tail(&self.pending, 0);
            assert(data@ =~= self.pending@);
            self.ask(Phase::Writing { to, terminal }, Request::Write { to, data })
        } else {
            self.serve_terminal(terminal)
        }
    }

    fn no_slave(&mut self, done: bool, terminal: bool) -> (r: Step)
        ensures
            final(self)@ == no_slave(old(self)@, done, terminal).0,
            r@ == no_slave(old(self)@, done, terminal).1,
    {
        if done {
            self.close(None)
        } else {
            self.ask(Phase::Sleeping { terminal }, Request::Sleep { ms: NO_SLAVE_DELAY })
        }
    }

    /// Go on with the relay, now that its request was answered.
    pub fn step(&mut self, answer: Answer) -> (r: Step)
        requires
            expects(old(self)@, answer@),
        ensures
            final(self)@ == next(old(self)@, answer@).0,
            r@ == next(old(self)@, answer@).1,
    {
        match (self.phase, answer) {
            (Phase::Checking, Answer::Yes(yes)) => if yes {
                self.ask(Phase::Raising, Request::MakeRaw)
            } else {
                self.abort(msg("stdin is not a terminal; proxy mode must run from a terminal"))
            },
            (Phase::Raising, Answer::Failed(errno)) => self.abort(Error::Os(errno)),
            (Phase::Raising, _) => self.ask(Phase::Watching, Request::Watch),
            (Phase::Watching, _) => self.ask(Phase::Polling, Request::Poll),
            (Phase::Polling, Answer::Failed(errno)) => if errno == EINTR {
                self.ask(Phase::Polling, Request::Poll)
            } else {
                self.close(Some(errno))
            },
            (Phase::Polling, Answer::Ready { winch, terminal, master }) => if winch {
                self.ask(Phase::Resizing { master, terminal }, Request::ForwardSize)
            } else {
                self.serve(master, terminal)
            },
            (Phase::Resizing { master, terminal }, _) => self.serve(master, terminal),
            (Phase::Reading { from, terminal }, Answer::Data(data)) => {
                self.pending = data;
                let to: End = match from {
                    End::Terminal => End::Master,
                    End::Master => End::Terminal,
                };
                self.write_on(to, terminal)
            },
            (Phase::Reading { from, terminal }, Answer::NoSlave) => if from == End::Terminal {
                self.close(None)
            } else if self.has_child {
                self.ask(Phase::Asking { terminal }, Request::ChildDone)
            } else {
                let done: bool = self.exit_on_eio;
                self.no_slave(done, terminal)
            },
            (Phase::Reading { .. }, _) => self.close(None),
            (Phase::Writing { to, terminal }, Answer::Wrote(n)) => {
                let rest: Vec<u8> = tail(&self.pending, n);
                self.pending = rest;
                self.write_on(to, terminal)
            },
            (Phase::Writing { to, terminal }, Answer::Failed(errno)) => if errno == EINTR {
                self.write_on(to, terminal)
            } else {
                self.close(Some(errno))
            },
            (Phase::Asking { terminal }, Answer::Yes(done)) => self.no_slave(done, terminal),
            (Phase::Asking { .. }, Answer::Failed(errno)) => self.close(Some(errno)),
            (Phase::Sleeping { terminal }, _) => self.serve_terminal(terminal),
            (Phase::Restoring, _) => {
                self.phase = Phase::Over;
                match self.trouble.take() {
                    Some(e) => Step::Finish(Err(e)),
                    None => Step::Finish(Ok(())),
                }
            },
            // No other answer is expected.
            _ => self.abort(Error::Os(0)),
        }
    }
}

/// What is left behind the first `n` bytes.
fn tail(v: &Vec<u8>, n: usize) -> (r: Vec<u8>)
    requires
        n <= v@.len(),
    ensures
        r@ == v@.skip(n as int),
{
    let mut r: Vec<u8> = Vec::new();
    let mut i: usize = n;
    while i < v.len()
        invariant
            n <= i <= v@.len(),
            r@ == v@.subrange(n as int, i as int),
        decreases v@.len() - i,
    {
        r.push(v[i]);
        i = i + 1;
        assert(r@ =~= v@.subrange(n as int, i as int));
    }
    assert(r@ =~= v@.skip(n as int));
    r
}

// ---------------------------------------------------------------------
// Laws
// ---------------------------------------------------------------------

/// Requests with their answers, in the order in which they were made.
pub type Log = Seq<(RequestView, AnswerView)>;

/// The relay and its step after the answers `answers`.
pub open spec fn after(p: ProxyView, step: StepView, answers: Seq<AnswerView>) -> Transition
    decreases answers.len(),
{
    if answers.len() == 0 {
        (p, step)
    } else {
        next(after(p, step, answers.drop_last()).0, answers.last())
    }
}

/// Whether each of `answers` can be the answer that the relay is waiting
/// for when it comes.
pub open spec fn accepts(p: ProxyView, step: StepView, answers: Seq<AnswerView>) -> bool
    decreases answers.len(),
{
    answers.len() > 0 ==> {
        &&& accepts(p, step, answers.drop_last())
        &&& expects(after(p, step, answers.drop_last()).0, answers.last())
    }
}

/// The requests that were answered by `answers`, with their answers.
pub open spec fn log(p: ProxyView, step: StepView, answers: Seq<AnswerView>) -> Log
    decreases answers.len(),
{
    if answers.len() == 0 {
        Seq::empty()
    } else {
        log(p, step, answers.drop_last()).push(
            (after(p, step, answers.drop_last()).1->Do_0, answers.last()),
        )
    }
}

/// Every byte that was read from an end, in order.
pub open spec fn read_from(log: Log, end: End) -> Seq<u8>
    decreases log.len(),
{
    if log.len() == 0 {
        Seq::empty()
    } else {
        let before = read_from(log.drop_last(), end);
        match log.last() {
            (RequestView::Read { from }, AnswerView::Data(data)) => if from == end {
                before + data
            } else {
                before
            },
            _ => before,
        }
    }
}

/// Every byte that was written to an end, in order.
pub open spec fn written_to(log: Log, end: End) -> Seq<u8>
    decreases log.len(),
{
    if log.len() == 0 {
        Seq::empty()
    } else {
        let before = written_to(log.drop_last(), end);
        match log.last() {
            (RequestView::Write { to, data }, AnswerView::Wrote(n)) => if to == end {
                before + data.take(n as int)
            } else {
                before
            },
            _ => before,
        }
    }
}

/// A relay that has just begun.
pub open spec fn begun(exit_on_eio: bool, has_child: bool) -> ProxyView {
    ProxyView {
        exit_on_eio,
        has_child,
        pending: Seq::empty(),
        trouble: None,
        phase: Phase::Checking,
    }
}

/// What is on the way to an end.
spec fn on_the_way(p: ProxyView, end: End) -> Seq<u8> {
    match p.phase {
        Phase::Writing { to, .. } => if to == end {
            p.pending
        } else {
            Seq::empty()
        },
        _ => Seq::empty(),
    }
}

/// How a relay stands to the log of what it asked for.
spec fn in_order(p: ProxyView, step: StepView, log: Log) -> bool {
    &&& match p.phase {
        Phase::Over => step is Finish,
        Phase::Checking => step == StepView::Do(RequestView::IsTerminal) && log.len() == 0,
        Phase::Raising => step == StepView::Do(RequestView::MakeRaw) && log.len() == 1,
        Phase::Reading { from, terminal } => {
            &&& step == StepView::Do(RequestView::Read { from })
            &&& from == End::Terminal ==> !terminal
        },
        Phase::Writing { to, terminal } => {
            &&& step == StepView::Do(RequestView::Write { to, data: p.pending })
            &&& p.pending.len() > 0
        },
        Phase::Restoring => step == StepView::Do(RequestView::RestoreTerminal),
        _ => step matches StepView::Do(request) && !(request is Read || request is Write
            || request is MakeRaw),
    }
    &&& !(p.phase is Checking || p.phase is Raising) && !(step matches StepView::Finish(Err(_))
        && log.len() <= 2) ==> log.len() >= 2 && log[1] == (RequestView::MakeRaw, AnswerView::Done)
    &&& p.phase is Over && log.len() > 2 ==> log.last().0 == RequestView::RestoreTerminal
    &&& p.trouble is None && !(step matches StepView::Finish(Err(_))) ==> forall|end: End|
        #![trigger read_from(log, end)]
        #![trigger written_to(log, other(end))]
        read_from(log, end) == written_to(log, other(end)) + on_the_way(p, other(end))
}

#[verifier::spinoff_prover]
#[verifier::rlimit(40)]
proof fn lemma_in_order_step(p: ProxyView, step: StepView, answer: AnswerView, before: Log)
    requires
        in_order(p, step, before),
        p.phase is Restoring || p.trouble is None,
        expects(p, answer),
    ensures
        ({
            let (p2, step2) = next(p, answer);
            &&& in_order(p2, step2, before.push((step->Do_0, answer)))
            &&& p2.phase is Restoring || p2.trouble is None
        }),
{
    let (p2, step2) = next(p, answer);
    let log = before.push((step->Do_0, answer));
    assert(log.drop_last() =~= before);
    if p2.trouble is None && p.trouble is None && !(step2 matches StepView::Finish(Err(_))) {
        assert forall|end: End|
            #![trigger read_from(log, end)]
            #![trigger written_to(log, other(end))]
            read_from(log, end) == written_to(log, other(end)) + on_the_way(p2, other(end)) by {
            assert(read_from(before, end) == written_to(before, other(end)) + on_the_way(
                p,
                other(end),
            ));
            assert(read_from(log, end) =~= written_to(log, other(end)) + on_the_way(
                p2,
                other(end),
            ));
        }
    }
}

proof fn lemma_in_order(p: ProxyView, step: StepView, answers: Seq<AnswerView>)
    requires
        in_order(p, step, Seq::empty()),
        p.trouble is None,
        accepts(p, step, answers),
    ensures
        ({
            let (t, tstep) = after(p, step, answers);
            &&& in_order(t, tstep, log(p, step, answers))
            &&& t.phase is Restoring || t.trouble is None
        }),
    decreases answers.len(),
{
    if answers.len() > 0 {
        let front = answers.drop_last();
        lemma_in_order(p, step, front);
        let (t, tstep) = after(p, step, front);
        lemma_in_order_step(t, tstep, answers.last(), log(p, step, front));
    }
}

/// At every moment, what was written to an end is the beginning of what was
/// read from the other: nothing is modified, reordered or made up.
pub proof fn nothing_else_is_written(
    exit_on_eio: bool,
    has_child: bool,
    answers: Seq<AnswerView>,
    end: End,
)
    requires
        accepts(
            begun(exit_on_eio, has_child),
            StepView::Do(RequestView::IsTerminal),
            answers,
        ),
    ensures
        ({
            let done = log(
                begun(exit_on_eio, has_child),
                StepView::Do(RequestView::IsTerminal),
                answers,
            );
            written_to(done, other(end)).is_prefix_of(read_from(done, end))
        }),
    decreases answers.len(),
{
    if answers.len() > 0 {
        let p = begun(exit_on_eio, has_child);
        let step = StepView::Do(RequestView::IsTerminal);
        let front = answers.drop_last();
        nothing_else_is_written(exit_on_eio, has_child, front, end);
        lemma_begun_in_order(exit_on_eio, has_child);
        lemma_in_order(p, step, front);
        lemma_prefix_step(
            after(p, step, front).0,
            after(p, step, front).1,
            answers.last(),
            log(p, step, front),
            end,
        );
    }
}

proof fn lemma_prefix_step(
    p: ProxyView,
    step: StepView,
    answer: AnswerView,
    before: Log,
    end: End,
)
    requires
        in_order(p, step, before),
        p.phase is Restoring || p.trouble is None,
        expects(p, answer),
        written_to(before, other(end)).is_prefix_of(read_from(before, end)),
    ensures
        ({
            let log = before.push((step->Do_0, answer));
            written_to(log, other(end)).is_prefix_of(read_from(log, end))
        }),
{
    let log = before.push((step->Do_0, answer));
    assert(log.drop_last() =~= before);
    if let Phase::Writing { to, .. } = p.phase {
        assert(read_from(before, end) == written_to(before, other(end)) + on_the_way(
            p,
            other(end),
        ));
    }
}

proof fn lemma_begun_in_order(exit_on_eio: bool, has_child: bool)
    ensures
        in_order(
            begun(exit_on_eio, has_child),
            StepView::Do(RequestView::IsTerminal),
            Seq::empty(),
        ),
{
    let p = begun(exit_on_eio, has_child);
    let empty: Log = Seq::empty();
    assert forall|e: End|
        #![trigger read_from(empty, e)]
        #![trigger written_to(empty, other(e))]
        read_from(empty, e) == written_to(empty, other(e)) + on_the_way(p, other(e)) by {
        assert(read_from(empty, e) =~= written_to(empty, other(e)) + on_the_way(p, other(e)));
    }
}

/// When a relay ends well, every byte that was read from one end was
/// written to the other, unmodified and in order.
pub proof fn everything_is_relayed(
    exit_on_eio: bool,
    has_child: bool,
    answers: Seq<AnswerView>,
    end: End,
)
    requires
        accepts(
            begun(exit_on_eio, has_child),
            StepView::Do(RequestView::IsTerminal),
            answers,
        ),
        after(
            begun(exit_on_eio, has_child),
            StepView::Do(RequestView::IsTerminal),
            answers,
        ).1 matches StepView::Finish(Ok(_)),
    ensures
        ({
            let done = log(
                begun(exit_on_eio, has_child),
                StepView::Do(RequestView::IsTerminal),
                answers,
            );
            read_from(done, end) == written_to(done, other(end))
        }),
{
    let p = begun(exit_on_eio, has_child);
    let step = StepView::Do(RequestView::IsTerminal);
    lemma_begun_in_order(exit_on_eio, has_child);
    lemma_in_order(p, step, answers);
    let (t, tstep) = after(p, step, answers);
    let done = log(p, step, answers);
    assert(t.phase is Over);
    assert(read_from(done, end) == written_to(done, other(end)) + on_the_way(t, other(end)));
    assert(read_from(done, end) =~= written_to(done, other(end)));
}

/// Once the terminal is in raw mode, however the relay ends, the last thing
/// that it asks for is to restore the terminal.
pub proof fn terminal_is_always_restored(
    exit_on_eio: bool,
    has_child: bool,
    answers: Seq<AnswerView>,
)
    requires
        accepts(
            begun(exit_on_eio, has_child),
            StepView::Do(RequestView::IsTerminal),
            answers,
        ),
        after(
            begun(exit_on_eio, has_child),
            StepView::Do(RequestView::IsTerminal),
            answers,
        ).1 is Finish,
    ensures
        ({
            let done = log(
                begun(exit_on_eio, has_child),
                StepView::Do(RequestView::IsTerminal),
                answers,
            );
            done.len() >= 2 && done[1] == (RequestView::MakeRaw, AnswerView::Done)
                ==> done.last().0 == RequestView::RestoreTerminal
        }),
{
    let p = begun(exit_on_eio, has_child);
    let step = StepView::Do(RequestView::IsTerminal);
    lemma_begun_in_order(exit_on_eio, has_child);
    lemma_in_order(p, step, answers);
    lemma_raised(p, step, answers);
}

proof fn lemma_raised(p: ProxyView, step: StepView, answers: Seq<AnswerView>)
    requires
        p.phase is Checking,
        accepts(p, step, answers),
    ensures
        ({
            let done = log(p, step, answers);
            &&& done.len() == answers.len()
            &&& done.len() == 2 && done[1].1 == AnswerView::Done ==> after(
                p,
                step,
                answers,
            ).1 is Do
        }),
    decreases answers.len(),
{
    if answers.len() > 0 {
        let front = answers.drop_last();
        lemma_raised(p, step, front);
        if answers.len() == 2 {
            let first = front.drop_last();
            assert(first.len() == 0);
            assert(after(p, step, first) == (p, step));
        }
    }
}

/// Whatever a request can bring back, the relay is prepared for it.
pub proof fn every_answer_is_expected(
    p: ProxyView,
    given: AnswerView,
    request: RequestView,
    answer: AnswerView,
)
    requires
        expects(p, given),
        next(p, given).1 == StepView::Do(request),
        answers(request, answer),
    ensures
        expects(next(p, given).0, answer),
{
}

/// The size of the terminal is forwarded as soon as a change of it shows,
/// before anything else is relayed.
pub proof fn size_changes_are_forwarded(p: ProxyView, terminal: bool, master: bool)
    requires
        p.phase is Polling,
    ensures
        next(p, AnswerView::Ready { winch: true, terminal, master }).1 == StepView::Do(
            RequestView::ForwardSize,
        ),
{
}

/// What read(2) brings: as many bytes as it returned; the end at zero; and
/// of the errors EIO, which is 5, means that there is no slave, EINTR,
/// which is 4, that nothing happened, and every other one the end.
pub proof fn reads_in_numbers(n: i64, errno: i32)
    ensures
        0 < n <= usize::MAX ==> (read_meaning(n, errno) matches ReadOutcome::Data(k) && k == n),
        n == 0 ==> read_meaning(n, errno) == ReadOutcome::Eof,
        n < 0 && errno == 5 ==> read_meaning(n, errno) == ReadOutcome::NoSlave,
        n < 0 && errno == 4 ==> read_meaning(n, errno) == ReadOutcome::Again,
        n < 0 && errno != 4 && errno != 5 ==> read_meaning(n, errno) == ReadOutcome::Eof,
{
}

/// Whether an answer is a reason to end the relay: the end of file, no
/// slave where that says that the session is gone, the command being done,
/// or a failure that is more than an interruption.
pub open spec fn is_reason_to_end(
    exit_on_eio: bool,
    has_child: bool,
    request: RequestView,
    answer: AnswerView,
) -> bool {
    match (request, answer) {
        (RequestView::Read { .. }, AnswerView::Eof) => true,
        (RequestView::Read { from: End::Terminal }, AnswerView::NoSlave) => true,
        (RequestView::Read { from: End::Master }, AnswerView::NoSlave) => exit_on_eio
            && !has_child,
        (RequestView::ChildDone, AnswerView::Yes(done)) => done,
        (RequestView::ChildDone, AnswerView::Failed(_)) => true,
        (_, AnswerView::Failed(errno)) => errno != 4,
        _ => false,
    }
}

/// Whether an end was found to have something to read and has not been read
/// since.
pub open spec fn is_due(log: Log, end: End) -> bool
    decreases log.len(),
{
    log.len() > 0 && match log.last() {
        (RequestView::Poll, AnswerView::Ready { terminal, master, .. }) => match end {
            End::Terminal => terminal,
            End::Master => master,
        },
        (RequestView::Read { from }, _) => from != end && is_due(log.drop_last(), end),
        _ => is_due(log.drop_last(), end),
    }
}

/// Whether the size of the terminal was found to have changed and has not
/// been forwarded since.
pub open spec fn is_size_due(log: Log) -> bool
    decreases log.len(),
{
    log.len() > 0 && match log.last() {
        (RequestView::Poll, AnswerView::Ready { winch, .. }) => winch,
        (RequestView::ForwardSize, _) => false,
        _ => is_size_due(log.drop_last()),
    }
}

/// What was read last and has not been written yet, and to which end it
/// goes.
pub open spec fn unwritten(log: Log) -> (End, Seq<u8>)
    decreases log.len(),
{
    if log.len() == 0 {
        (End::Terminal, Seq::empty())
    } else {
        let (to, data) = unwritten(log.drop_last());
        match log.last() {
            (RequestView::Read { from }, AnswerView::Data(data)) => (other(from), data),
            (RequestView::Write { .. }, AnswerView::Wrote(n)) => (to, data.skip(n as int)),
            _ => (to, data),
        }
    }
}

/// What a relay asks for next, by what has happened: whether the command is
/// done, or for a pause, when the master turned out to have no slave; then
/// the size, what is left to write, and what is left to read, the master
/// first; and when nothing is left, for more.
pub open spec fn next_in_turn(has_child: bool, log: Log) -> RequestView {
    match log.last() {
        (RequestView::Read { .. }, AnswerView::NoSlave) if has_child => RequestView::ChildDone,
        (RequestView::Read { .. }, AnswerView::NoSlave) => RequestView::Sleep { ms: 200 },
        (RequestView::ChildDone, _) => RequestView::Sleep { ms: 200 },
        _ => if is_size_due(log) {
            RequestView::ForwardSize
        } else if unwritten(log).1.len() > 0 {
            RequestView::Write { to: unwritten(log).0, data: unwritten(log).1 }
        } else if is_due(log, End::Master) {
            RequestView::Read { from: End::Master }
        } else if is_due(log, End::Terminal) {
            RequestView::Read { from: End::Terminal }
        } else {
            RequestView::Poll
        },
    }
}

/// How the phases of a relay stand to what has happened.
spec fn in_turn(p: ProxyView, step: StepView, log: Log) -> bool {
    let master = is_due(log, End::Master);
    let terminal = is_due(log, End::Terminal);
    let left = unwritten(log);
    match p.phase {
        Phase::Checking | Phase::Raising | Phase::Watching => {
            &&& !master && !terminal && !is_size_due(log) && left.1.len() == 0
            &&& p.phase is Checking ==> step == StepView::Do(RequestView::IsTerminal)
            &&& p.phase is Raising ==> step == StepView::Do(RequestView::MakeRaw)
            &&& p.phase is Watching ==> step == StepView::Do(RequestView::Watch)
        },
        Phase::Polling => {
            &&& !master && !terminal && !is_size_due(log) && left.1.len() == 0
            &&& step == StepView::Do(RequestView::Poll)
        },
        Phase::Resizing { master: m, terminal: t } => {
            &&& master == m && terminal == t && is_size_due(log) && left.1.len() == 0
            &&& step == StepView::Do(RequestView::ForwardSize)
        },
        Phase::Reading { from, terminal: t } => {
            &&& !is_size_due(log) && left.1.len() == 0
            &&& step == StepView::Do(RequestView::Read { from })
            &&& from == End::Master ==> master && terminal == t
            &&& from == End::Terminal ==> !master && terminal && !t
        },
        Phase::Writing { to, terminal: t } => {
            &&& !is_size_due(log) && left == (to, p.pending) && p.pending.len() > 0
            &&& !master && terminal == t
            &&& step == StepView::Do(RequestView::Write { to, data: p.pending })
        },
        Phase::Asking { terminal: t } => {
            &&& !is_size_due(log) && left.1.len() == 0 && !master && terminal == t
            &&& p.has_child
            &&& step == StepView::Do(RequestView::ChildDone)
        },
        Phase::Sleeping { terminal: t } => {
            &&& !is_size_due(log) && left.1.len() == 0 && !master && terminal == t
            &&& step == StepView::Do(RequestView::Sleep { ms: 200 })
        },
        Phase::Restoring => {
            &&& step == StepView::Do(RequestView::RestoreTerminal)
            &&& log.len() > 0
            &&& log.last().1 matches AnswerView::Failed(errno) ==> p.trouble == Some(
                ErrorView::Os(errno),
            )
            &&& !(log.last().1 is Failed) ==> p.trouble is None
        },
        Phase::Over => step is Finish,
    }
}

/// What has just happened decides what is asked for.
spec fn takes_turns(p: ProxyView, step: StepView, log: Log) -> bool {
    let (request, answer) = log.last();
    log.len() > 0 ==> match request {
        RequestView::IsTerminal => step == if answer == AnswerView::Yes(true) {
            StepView::Do(RequestView::MakeRaw)
        } else {
            StepView::Finish(
                Err(
                    ErrorView::Msg(
                        "stdin is not a terminal; proxy mode must run from a terminal"@,
                    ),
                ),
            )
        },
        RequestView::MakeRaw => step == match answer {
            AnswerView::Failed(errno) => StepView::Finish(Err(ErrorView::Os(errno))),
            _ => StepView::Do(RequestView::Watch),
        },
        RequestView::RestoreTerminal => {
            &&& log.len() > 1
            &&& step == StepView::Finish(
                match log[log.len() - 2].1 {
                    AnswerView::Failed(errno) => Err(ErrorView::Os(errno)),
                    _ => Ok(()),
                },
            )
        },
        _ => step == StepView::Do(
            if is_reason_to_end(p.exit_on_eio, p.has_child, request, answer) {
                RequestView::RestoreTerminal
            } else {
                next_in_turn(p.has_child, log)
            },
        ),
    }
}

#[verifier::spinoff_prover]
proof fn lemma_in_turn_step(p: ProxyView, step: StepView, answer: AnswerView, before: Log)
    requires
        in_turn(p, step, before),
        expects(p, answer),
    ensures
        ({
            let (p2, step2) = next(p, answer);
            let log = before.push((step->Do_0, answer));
            &&& in_turn(p2, step2, log)
            &&& takes_turns(p2, step2, log)
            &&& p2.exit_on_eio == p.exit_on_eio && p2.has_child == p.has_child
        }),
{
    let log = before.push((step->Do_0, answer));
    assert(log.drop_last() =~= before);
    assert(log.last() == (step->Do_0, answer));
    if before.len() > 0 {
        assert(log[log.len() - 2] == before.last());
    }
    if let Phase::Writing { .. } = p.phase {
        assert(p.pending.skip(0) =~= p.pending);
    }
}

proof fn lemma_in_turn(p: ProxyView, step: StepView, answers: Seq<AnswerView>)
    requires
        in_turn(p, step, Seq::empty()),
        accepts(p, step, answers),
    ensures
        ({
            let (t, tstep) = after(p, step, answers);
            let done = log(p, step, answers);
            &&& in_turn(t, tstep, done)
            &&& takes_turns(t, tstep, done)
            &&& t.exit_on_eio == p.exit_on_eio && t.has_child == p.has_child
        }),
    decreases answers.len(),
{
    if answers.len() > 0 {
        let front = answers.drop_last();
        lemma_in_turn(p, step, front);
        let (t, tstep) = after(p, step, front);
        lemma_in_turn_step(t, tstep, answers.last(), log(p, step, front));
    }
}

/// A relay ends only for a reason, and for every reason: once the terminal
/// is raw, it is restored next exactly when the last answer is a reason to
/// end. After every other answer the relay goes on: it asks for what is in
/// turn, and when nothing is left to read or to write it polls again.
pub proof fn relay_ends_only_for_a_reason(
    exit_on_eio: bool,
    has_child: bool,
    answers: Seq<AnswerView>,
)
    requires
        accepts(
            begun(exit_on_eio, has_child),
            StepView::Do(RequestView::IsTerminal),
            answers,
        ),
        answers.len() > 0,
    ensures
        ({
            let p = begun(exit_on_eio, has_child);
            let first = StepView::Do(RequestView::IsTerminal);
            let done = log(p, first, answers);
            let (request, answer) = done.last();
            let step = after(p, first, answers).1;
            !(request is IsTerminal || request is MakeRaw || request is RestoreTerminal) ==> {
                &&& step == StepView::Do(RequestView::RestoreTerminal) <==> is_reason_to_end(
                    exit_on_eio,
                    has_child,
                    request,
                    answer,
                )
                &&& !is_reason_to_end(exit_on_eio, has_child, request, answer) ==> step
                    == StepView::Do(next_in_turn(has_child, done))
                &&& !is_reason_to_end(exit_on_eio, has_child, request, answer) && !(request
                    is ChildDone) && !(answer is NoSlave) && !is_size_due(done) && unwritten(
                    done,
                ).1.len() == 0 && !is_due(done, End::Master) && !is_due(done, End::Terminal)
                    ==> step == StepView::Do(RequestView::Poll)
            }
        }),
{
    let p = begun(exit_on_eio, has_child);
    let first = StepView::Do(RequestView::IsTerminal);
    assert(in_turn(p, first, Seq::empty()));
    lemma_in_turn(p, first, answers);
}

/// A relay begins with a terminal that it can make raw, and reports it when
/// there is none; and when it is over, it has failed exactly if a failure
/// ended it, and by the error number of that failure.
pub proof fn relay_reports_what_ended_it(
    exit_on_eio: bool,
    has_child: bool,
    answers: Seq<AnswerView>,
)
    requires
        accepts(
            begun(exit_on_eio, has_child),
            StepView::Do(RequestView::IsTerminal),
            answers,
        ),
        answers.len() > 0,
    ensures
        ({
            let p = begun(exit_on_eio, has_child);
            let first = StepView::Do(RequestView::IsTerminal);
            let done = log(p, first, answers);
            let (request, answer) = done.last();
            let step = after(p, first, answers).1;
            &&& request is IsTerminal ==> step == if answer == AnswerView::Yes(true) {
                StepView::Do(RequestView::MakeRaw)
            } else {
                StepView::Finish(
                    Err(
                        ErrorView::Msg(
                            "stdin is not a terminal; proxy mode must run from a terminal"@,
                        ),
                    ),
                )
            }
            &&& request is MakeRaw ==> step == match answer {
                AnswerView::Failed(errno) => StepView::Finish(Err(ErrorView::Os(errno))),
                _ => StepView::Do(RequestView::Watch),
            }
            &&& request is RestoreTerminal ==> step == StepView::Finish(
                match done[done.len() - 2].1 {
                    AnswerView::Failed(errno) => Err(ErrorView::Os(errno)),
                    _ => Ok(()),
                },
            )
            &&& step is Finish ==> request is IsTerminal || request is MakeRaw || request
                is RestoreTerminal
        }),
{
    let p = begun(exit_on_eio, has_child);
    let first = StepView::Do(RequestView::IsTerminal);
    assert(in_turn(p, first, Seq::empty()));
    lemma_in_turn(p, first, answers);
}

} // verus!
