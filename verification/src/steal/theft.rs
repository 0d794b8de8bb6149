//! Taking the master end of a pty out of the emulator that holds it.

use vstd::prelude::*;

use super::{
    cmsg_bytes, msghdr_bytes, sockaddr_bytes, CMSG_OFF, MSGHDR_OFF, PATH_OFF, PTN_OFF,
    SOCKADDR_LEN, SOCKADDR_OFF,
};
use crate::abi::{AF_UNIX, AT_FDCWD, O_RDWR, PAGE_SIZE, SOCK_DGRAM, SUN_PATH_LEN, TIOCGPTN};
use crate::arch::{Arch, Syscalls};
use crate::bytes;
use crate::bytes::c_string;
use crate::error::{Error, ErrorView};
use crate::ptrace;
use crate::remote;
use crate::remote::{Answer, AnswerView, Request, RequestView, Step, StepView};
use crate::steal;
use crate::text;
use crate::text::{copy_text, push_decimal, push_signed};

verus! {

/// Which request is outstanding. Each number is a position in a list.
#[derive(Debug, Clone, Copy, PartialEq, Eq, Structural)]
pub enum Phase {
    /// Listing the emulator's pty masters.
    Listing,
    /// Asking a master for its number.
    Asking(usize),
    /// Reading the number.
    Reading(usize),
    /// Opening our end of the socket.
    Binding,
    /// Staging the socket's address.
    Addressing,
    /// Creating the emulator's end of the socket.
    Socketing,
    /// Connecting it.
    Connecting,
    /// The connection was refused: closing the socket.
    Hanging,
    /// Staging the message.
    Heading,
    /// Staging the control message.
    Controlling,
    /// Sending the master.
    Sending,
    /// Receiving it.
    Receiving,
    /// Making the target's session immune to the coming hangup.
    Shielding,
    /// Staging the path of the null device.
    Naming,
    /// Opening the null device.
    Nulling,
    /// Replacing the emulator's copies of the master.
    Covering(usize),
    /// Closing the null device.
    Uncovering,
    /// Closing the emulator's end of the socket.
    Closing,
    /// Nothing is outstanding.
    Over,
}

/// A theft that is under way.
pub struct Theft {
    emulator: i32,
    ptn: u32,
    sid: i32,
    scratch: u64,
    /// The pty masters of the emulator.
    fds: Vec<i32>,
    /// Those of the target's pty.
    masters: Vec<i32>,
    socket: i64,
    null_fd: i64,
    refusal: i64,
    stolen: i32,
    phase: Phase,
}

#[verifier::ext_equal]
pub struct TheftView {
    pub emulator: i32,
    pub ptn: u32,
    pub sid: i32,
    pub scratch: u64,
    pub fds: Seq<i32>,
    pub masters: Seq<i32>,
    pub socket: i64,
    pub null_fd: i64,
    pub refusal: i64,
    pub stolen: i32,
    pub phase: Phase,
}

impl TheftView {
    pub open spec fn wf(self) -> bool {
        &&& self.scratch + PTN_OFF <= u64::MAX
        &&& self.refusal > i64::MIN
        &&& match self.phase {
            Phase::Listing | Phase::Over => true,
            Phase::Asking(i) | Phase::Reading(i) => i < self.fds.len(),
            Phase::Covering(i) => i < self.masters.len(),
            _ => self.masters.len() > 0,
        }
    }
}

impl View for Theft {
    type V = TheftView;

    closed spec fn view(&self) -> TheftView {
        TheftView {
            emulator: self.emulator,
            ptn: self.ptn,
            sid: self.sid,
            scratch: self.scratch,
            fds: self.fds@,
            masters: self.masters@,
            socket: self.socket,
            null_fd: self.null_fd,
            refusal: self.refusal,
            stolen: self.stolen,
            phase: self.phase,
        }
    }
}

pub type Transition = (TheftView, StepView<i32>);

pub open spec fn no_master(ptn: u32, emulator: i32) -> ErrorView {
    ErrorView::Msg(
        "no master fd for pty "@ + text::decimal(ptn as nat) + " found in emulator "@
            + text::signed_decimal(emulator as int),
    )
}

pub open spec fn connect_refused(value: i64) -> ErrorView {
    ErrorView::Msg(
        "remote connect() failed (errno "@ + text::signed_decimal(-value)
            + "); the emulator may run as another user (try sudo)"@,
    )
}

pub open spec fn ask(s: TheftView, phase: Phase, request: RequestView) -> Transition {
    (TheftView { phase, ..s }, StepView::Do(request))
}

pub open spec fn call(s: TheftView, phase: Phase, nr: u64, args: Seq<u64>) -> Transition {
    ask(s, phase, RequestView::Call { nr, args })
}

pub open spec fn fail(s: TheftView, e: ErrorView) -> Transition {
    (TheftView { phase: Phase::Over, ..s }, StepView::Finish(Err(e)))
}

/// Ask the masters from position `i` on for their numbers, then open the
/// socket.
pub open spec fn ask_from(n: Syscalls, s: TheftView, i: int) -> Transition {
    if i < s.fds.len() {
        call(
            s,
            Phase::Asking(i as usize),
            n.ioctl,
            seq![s.fds[i] as u64, TIOCGPTN, (s.scratch + PTN_OFF) as u64, 0, 0, 0],
        )
    } else if s.masters.len() == 0 {
        fail(s, no_master(s.ptn, s.emulator))
    } else {
        ask(s, Phase::Binding, RequestView::Bind)
    }
}

/// Close the emulator's end of the socket, which ends the theft.
pub open spec fn close_socket(n: Syscalls, s: TheftView) -> Transition {
    call(s, Phase::Closing, n.close, seq![(s.socket as i32) as u64, 0, 0, 0, 0, 0])
}

/// Replace the emulator's copies of the master from position `i` on.
pub open spec fn cover_from(n: Syscalls, s: TheftView, i: int) -> Transition {
    if i < s.masters.len() {
        call(
            s,
            Phase::Covering(i as usize),
            n.dup,
            seq![s.null_fd as u64, s.masters[i] as u64, 0, 0, 0, 0],
        )
    } else {
        call(s, Phase::Uncovering, n.close, seq![s.null_fd as u64, 0, 0, 0, 0, 0])
    }
}

/// What a syscall of the emulator returned.
pub open spec fn on_value(n: Syscalls, s: TheftView, value: i64) -> Transition {
    match s.phase {
        // Not a master that has a number.
        Phase::Asking(i) => if value < 0 {
            ask_from(n, s, i + 1)
        } else {
            ask(s, Phase::Reading(i), RequestView::Read { addr: (s.scratch + PTN_OFF) as u64 })
        },
        Phase::Socketing => if value < 0 {
            fail(s, remote::failed("remote socket()"@, value))
        } else {
            call(
                TheftView { socket: value, ..s },
                Phase::Connecting,
                n.connect,
                seq![value as u64, (s.scratch + SOCKADDR_OFF) as u64, SOCKADDR_LEN, 0, 0, 0],
            )
        },
        Phase::Connecting => if value < 0 {
            call(
                TheftView { refusal: value, ..s },
                Phase::Hanging,
                n.close,
                seq![s.socket as u64, 0, 0, 0, 0, 0],
            )
        } else {
            ask(
                s,
                Phase::Heading,
                RequestView::Write {
                    addr: (s.scratch + MSGHDR_OFF) as u64,
                    data: steal::msghdr((s.scratch + CMSG_OFF) as u64),
                },
            )
        },
        Phase::Sending => if value < 0 {
            fail(s, remote::failed("remote sendmsg()"@, value))
        } else {
            ask(s, Phase::Receiving, RequestView::Receive)
        },
        // Without the null device the emulator keeps its copies.
        Phase::Nulling => if value < 0 {
            close_socket(n, s)
        } else {
            cover_from(n, TheftView { null_fd: value, ..s }, 0)
        },
        _ => arbitrary(),
    }
}

/// What the theft does with an answer.
pub open spec fn next(n: Syscalls, s: TheftView, answer: AnswerView) -> Transition {
    match (s.phase, answer) {
        // These are best effort.
        (Phase::Hanging, _) => fail(s, connect_refused(s.refusal)),
        (Phase::Covering(i), _) => cover_from(n, s, i + 1),
        (Phase::Uncovering, _) => close_socket(n, s),
        (Phase::Closing, _) => (
            TheftView { phase: Phase::Over, ..s },
            StepView::Finish(Ok(s.stolen)),
        ),
        (_, AnswerView::Failed(e)) => fail(s, e),
        (_, AnswerView::Value(value)) => on_value(n, s, value),
        (Phase::Listing, AnswerView::Numbers(fds)) => ask_from(n, TheftView { fds, ..s }, 0),
        (Phase::Reading(i), AnswerView::Word(word)) => ask_from(
            n,
            if word as u32 == s.ptn {
                TheftView { masters: s.masters.push(s.fds[i as int]), ..s }
            } else {
                s
            },
            i + 1,
        ),
        (Phase::Binding, AnswerView::Path(path)) => ask(
            s,
            Phase::Addressing,
            RequestView::Write {
                addr: (s.scratch + SOCKADDR_OFF) as u64,
                data: steal::sockaddr(path),
            },
        ),
        (Phase::Addressing, _) => call(
            s,
            Phase::Socketing,
            n.socket,
            seq![AF_UNIX as u64, SOCK_DGRAM as u64, 0, 0, 0, 0],
        ),
        (Phase::Heading, _) => ask(
            s,
            Phase::Controlling,
            RequestView::Write {
                addr: (s.scratch + CMSG_OFF) as u64,
                data: steal::cmsg(s.masters[0]),
            },
        ),
        (Phase::Controlling, _) => call(
            s,
            Phase::Sending,
            n.sendmsg,
            seq![(s.socket as i32) as u64, (s.scratch + MSGHDR_OFF) as u64, 0, 0, 0, 0],
        ),
        (Phase::Receiving, AnswerView::Number(fd)) => ask(
            TheftView { stolen: fd, ..s },
            Phase::Shielding,
            RequestView::Shield { pid: s.sid },
        ),
        (Phase::Shielding, _) => ask(
            s,
            Phase::Naming,
            RequestView::Write { addr: (s.scratch + PATH_OFF) as u64, data: bytes::c_bytes("/dev/null"@) },
        ),
        (Phase::Naming, _) => call(
            s,
            Phase::Nulling,
            n.openat,
            seq![AT_FDCWD as u64, (s.scratch + PATH_OFF) as u64, O_RDWR as u64, 0, 0, 0],
        ),
        _ => arbitrary(),
    }
}

/// Whether `answer` can be the answer that the theft is waiting for.
pub open spec fn expects(s: TheftView, answer: AnswerView) -> bool {
    match s.phase {
        Phase::Over => false,
        Phase::Listing => answer is Numbers || answer is Failed,
        Phase::Reading(_) => answer is Word || answer is Failed,
        Phase::Binding => {
            ||| answer is Failed
            ||| answer matches AnswerView::Path(path) && path.len() < SUN_PATH_LEN
        },
        Phase::Addressing
        | Phase::Heading
        | Phase::Controlling
        | Phase::Shielding
        | Phase::Naming => answer is Done || answer is Failed,
        Phase::Receiving => answer is Number || answer is Failed,
        _ => {
            ||| answer is Failed
            ||| answer matches AnswerView::Value(value) && value > i64::MIN
        },
    }
}

/// A theft that has just begun.
pub open spec fn begun(emulator: i32, scratch: u64, ptn: u32, sid: i32) -> TheftView {
    TheftView {
        emulator,
        ptn,
        sid,
        scratch,
        fds: Seq::empty(),
        masters: Seq::empty(),
        socket: 0,
        null_fd: 0,
        refusal: 0,
        stolen: 0,
        phase: Phase::Listing,
    }
}

/// Take the master end of the pty `ptn`, on which the session `sid` runs,
/// out of the hijacked emulator, with the help of a scratch page in it.
/// Ends with the stolen fd.
pub fn steal_inner(emulator: i32, scratch: u64, ptn: u32, sid: i32) -> (r: (Theft, Step<i32>))
    requires
        scratch + PTN_OFF <= u64::MAX,
    ensures
        r.0@ == begun(emulator, scratch, ptn, sid),
        r.0@.wf(),
        r.1@ == StepView::<i32>::Do(RequestView::ListMasters { pid: emulator }),
{
    let t: Theft = Theft {
        emulator,
        ptn,
        sid,
        scratch,
        fds: Vec::new(),
        masters: Vec::new(),
        socket: 0,
        null_fd: 0,
        refusal: 0,
        stolen: 0,
        phase: Phase::Listing,
    };
    (t, Step::Do(Request::ListMasters { pid: emulator }))
}

impl Theft {
    fn ask(&mut self, phase: Phase, request: Request) -> (r: Step<i32>)
        ensures
            final(self)@ == ask(old(self)@, phase, request@).0,
            r@ == ask(old(self)@, phase, request@).1,
    {
        self.phase = phase;
        Step::Do(request)
    }

    fn call(&mut self, phase: Phase, nr: u64, args: [u64; 6]) -> (r: Step<i32>)
        ensures
            final(self)@ == call(old(self)@, phase, nr, args@).0,
            r@ == call(old(self)@, phase, nr, args@).1,
    {
        self.ask(phase, Request::Call { nr, args })
    }

    fn fail(&mut self, e: Error) -> (r: Step<i32>)
        ensures
            final(self)@ == fail(old(self)@, e@).0,
            r@ == fail(old(self)@, e@).1,
    {
        self.phase = Phase::Over;
        Step::Finish(Err(e))
    }

    /// Every fd in the emulator that refers to a ptmx master whose pty
    /// number matches the target's.
    fn ask_from<A: Arch>(&mut self, a: &A, i: usize) -> (r: Step<i32>)
        requires
            old(self)@.scratch + PTN_OFF <= u64::MAX,
            old(self)@.refusal > i64::MIN,
        ensures
            final(self)@ == ask_from(A::numbers(), old(self)@, i as int).0,
            r@ == ask_from(A::numbers(), old(self)@, i as int).1,
            final(self)@.wf(),
    {
        if i < self.fds.len() {
            let fd: i32 = self.fds[i];
            let at: u64 = self.scratch + PTN_OFF;
            self.call(Phase::Asking(i), a.nr_ioctl(), [fd as u64, TIOCGPTN, at, 0, 0, 0])
        } else if self.masters.len() == 0 {
            let mut m: String = copy_text("no master fd for pty ");
            push_decimal(&mut m, self.ptn as u64);
            m.append(" found in emulator ");
            push_signed(&mut m, self.emulator as i64);
            self.fail(Error::Msg(m))
        } else {
            self.ask(Phase::Binding, Request::Bind)
        }
    }

    fn close_socket<A: Arch>(&mut self, a: &A) -> (r: Step<i32>)
        ensures
            final(self)@ == close_socket(A::numbers(), old(self)@).0,
            r@ == close_socket(A::numbers(), old(self)@).1,
    {
        let fd: i32 = self.socket as i32;
        self.call(Phase::Closing, a.nr_close(), [fd as u64, 0, 0, 0, 0, 0])
    }

    fn cover_from<A: Arch>(&mut self, a: &A, i: usize) -> (r: Step<i32>)
        requires
            old(self)@.scratch + PTN_OFF <= u64::MAX,
            old(self)@.refusal > i64::MIN,
            old(self)@.masters.len() > 0,
        ensures
            final(self)@ == cover_from(A::numbers(), old(self)@, i as int).0,
            r@ == cover_from(A::numbers(), old(self)@, i as int).1,
            final(self)@.wf(),
    {
        let null_fd: i64 = self.null_fd;
        if i < self.masters.len() {
            let fd: i32 = self.masters[i];
            let (nr, args): (u64, [u64; 6]) = a.dup_syscall(null_fd as u64, fd as u64);
            self.call(Phase::Covering(i), nr, args)
        } else {
            self.call(Phase::Uncovering, a.nr_close(), [null_fd as u64, 0, 0, 0, 0, 0])
        }
    }

    fn on_value<A: Arch>(&mut self, a: &A, value: i64) -> (r: Step<i32>)
        requires
            old(self)@.wf(),
            value > i64::MIN,
            ({
                let p = old(self)@.phase;
                p is Asking || p is Socketing || p is Connecting || p is Sending || p is Nulling
            }),
        ensures
            final(self)@ == on_value(A::numbers(), old(self)@, value).0,
            r@ == on_value(A::numbers(), old(self)@, value).1,
            final(self)@.wf(),
    {
        let scratch: u64 = self.scratch;
        match self.phase {
            Phase::Asking(i) => {
                assert(i < self.fds.len());
                if value < 0 {
                    self.ask_from(a, i + 1)
                } else {
                    self.ask(Phase::Reading(i), Request::Read { addr: scratch + PTN_OFF })
                }
            },
            Phase::Socketing => if value < 0 {
                self.fail(remote::failure("remote socket()", value))
            } else {
                self.socket = value;
                self.call(
                    Phase::Connecting,
                    a.nr_connect(),
                    [value as u64, scratch + SOCKADDR_OFF, SOCKADDR_LEN, 0, 0, 0],
                )
            },
            Phase::Connecting => if value < 0 {
                self.refusal = value;
                let socket: i64 = self.socket;
                self.call(Phase::Hanging, a.nr_close(), [socket as u64, 0, 0, 0, 0, 0])
            } else {
                self.ask(
                    Phase::Heading,
                    Request::Write {
                        addr: scratch + MSGHDR_OFF,
                        data: msghdr_bytes(scratch + CMSG_OFF),
                    },
                )
            },
            Phase::Sending => if value < 0 {
                self.fail(remote::failure("remote sendmsg()", value))
            } else {
                self.ask(Phase::Receiving, Request::Receive)
            },
            _ => if value < 0 {
                self.close_socket(a)
            } else {
                self.null_fd = value;
                self.cover_from(a, 0)
            },
        }
    }

    /// Go on with the theft, now that its request was answered.
    pub fn step<A: Arch>(&mut self, a: &A, answer: Answer) -> (r: Step<i32>)
        requires
            old(self)@.wf(),
            expects(old(self)@, answer@),
        ensures
            final(self)@ == next(A::numbers(), old(self)@, answer@).0,
            r@ == next(A::numbers(), old(self)@, answer@).1,
            final(self)@.wf(),
    {
        let scratch: u64 = self.scratch;
        match (self.phase, answer) {
            (Phase::Hanging, _) => {
                let mut m: String = copy_text("remote connect() failed (errno ");
                push_signed(&mut m, -self.refusal);
                m.append("); the emulator may run as another user (try sudo)");
                self.fail(Error::Msg(m))
            },
            (Phase::Covering(i), _) => {
                assert(i < self.masters.len());
                self.cover_from(a, i + 1)
            },
            (Phase::Uncovering, _) => self.close_socket(a),
            (Phase::Closing, _) => {
                self.phase = Phase::Over;
                Step::Finish(Ok(self.stolen))
            },
            (_, Answer::Failed(e)) => self.fail(e),
            (_, Answer::Value(value)) => self.on_value(a, value),
            (Phase::Listing, Answer::Numbers(fds)) => {
                self.fds = fds;
                self.ask_from(a, 0)
            },
            (Phase::Reading(i), Answer::Word(word)) => {
                assert(i < self.fds.len());
                if word as u32 == self.ptn {
                    let fd: i32 = self.fds[i];
                    self.masters.push(fd);
                }
                self.ask_from(a, i + 1)
            },
            (Phase::Binding, Answer::Path(path)) => match sockaddr_bytes(&path) {
                Ok(data) => self.ask(
                    Phase::Addressing,
                    Request::Write { addr: scratch + SOCKADDR_OFF, data },
                ),
                Err(e) => self.fail(e),
            },
            (Phase::Addressing, _) => self.call(
                Phase::Socketing,
                a.nr_socket(),
                [AF_UNIX as u64, SOCK_DGRAM as u64, 0, 0, 0, 0],
            ),
            (Phase::Heading, _) => {
                let fd: i32 = self.masters[0];
                self.ask(
                    Phase::Controlling,
                    Request::Write { addr: scratch + CMSG_OFF, data: cmsg_bytes(fd) },
                )
            },
            (Phase::Controlling, _) => {
                let socket: i32 = self.socket as i32;
                self.call(
                    Phase::Sending,
                    a.nr_sendmsg(),
                    [socket as u64, scratch + MSGHDR_OFF, 0, 0, 0, 0],
                )
            },
            (Phase::Receiving, Answer::Number(fd)) => {
                self.stolen = fd;
                let pid: i32 = self.sid;
                self.ask(Phase::Shielding, Request::Shield { pid })
            },
            (Phase::Shielding, _) => {
                let data: Vec<u8> = c_string("/dev/null");
                self.ask(Phase::Naming, Request::Write { addr: scratch + PATH_OFF, data })
            },
            (Phase::Naming, _) => self.call(
                Phase::Nulling,
                a.nr_openat(),
                [AT_FDCWD as u64, scratch + PATH_OFF, O_RDWR as u64, 0, 0, 0],
            ),
            // No other answer is expected.
            _ => self.fail(Error::Os(0)),
        }
    }
}

// ---------------------------------------------------------------------
// Laws
// ---------------------------------------------------------------------

/// The theft and its step after the answers `answers`.
pub open spec fn after(
    n: Syscalls,
    s: TheftView,
    step: StepView<i32>,
    answers: Seq<AnswerView>,
) -> Transition
    decreases answers.len(),
{
    if answers.len() == 0 {
        (s, step)
    } else {
        next(n, after(n, s, step, answers.drop_last()).0, answers.last())
    }
}

/// Whether each of `answers` can be the answer that the theft is waiting
/// for when it comes.
pub open spec fn accepts(
    n: Syscalls,
    s: TheftView,
    step: StepView<i32>,
    answers: Seq<AnswerView>,
) -> bool
    decreases answers.len(),
{
    answers.len() > 0 ==> {
        &&& accepts(n, s, step, answers.drop_last())
        &&& expects(after(n, s, step, answers.drop_last()).0, answers.last())
    }
}

/// The requests that were answered by `answers`, in order.
pub open spec fn requests(
    n: Syscalls,
    s: TheftView,
    step: StepView<i32>,
    answers: Seq<AnswerView>,
) -> Seq<RequestView>
    decreases answers.len(),
{
    if answers.len() == 0 {
        Seq::empty()
    } else {
        requests(n, s, step, answers.drop_last()).push(
            after(n, s, step, answers.drop_last()).1->Do_0,
        )
    }
}

/// Whether the emulator answers the questions for pty numbers by `numbers`,
/// which has none for what is no master.
pub open spec fn truthful(
    n: Syscalls,
    s: TheftView,
    step: StepView<i32>,
    answers: Seq<AnswerView>,
    numbers: spec_fn(i32) -> Option<u32>,
) -> bool
    decreases answers.len(),
{
    answers.len() > 0 ==> {
        let before = after(n, s, step, answers.drop_last()).0;
        &&& truthful(n, s, step, answers.drop_last(), numbers)
        &&& match (before.phase, answers.last()) {
            (Phase::Asking(i), AnswerView::Value(value)) => value >= 0 <==> numbers(
                before.fds[i as int],
            ) is Some,
            (Phase::Reading(i), AnswerView::Word(word)) => numbers(before.fds[i as int]) == Some(
                word as u32,
            ),
            _ => true,
        }
    }
}

/// The fds that are a master of the pty `ptn`.
pub open spec fn masters_of(
    numbers: spec_fn(i32) -> Option<u32>,
    ptn: u32,
) -> spec_fn(i32) -> bool {
    |fd: i32| numbers(fd) == Some(ptn)
}

spec fn sorted_out(s: TheftView, numbers: spec_fn(i32) -> Option<u32>) -> bool {
    match s.phase {
        Phase::Listing => s.masters.len() == 0,
        Phase::Asking(i) => i < s.fds.len() && s.masters == s.fds.take(i as int).filter(
            masters_of(numbers, s.ptn),
        ),
        Phase::Reading(i) => i < s.fds.len() && s.masters == s.fds.take(i as int).filter(
            masters_of(numbers, s.ptn),
        ) && numbers(s.fds[i as int]) is Some,
        Phase::Over => true,
        _ => s.masters == s.fds.filter(masters_of(numbers, s.ptn)),
    }
}

proof fn lemma_sorted_out_step(
    n: Syscalls,
    s: TheftView,
    answer: AnswerView,
    numbers: spec_fn(i32) -> Option<u32>,
)
    requires
        sorted_out(s, numbers),
        expects(s, answer),
        s.fds.len() <= usize::MAX,
        answer matches AnswerView::Numbers(fds) ==> fds.len() <= usize::MAX,
        match (s.phase, answer) {
            (Phase::Asking(i), AnswerView::Value(value)) => value >= 0 <==> numbers(
                s.fds[i as int],
            ) is Some,
            (Phase::Reading(i), AnswerView::Word(word)) => numbers(s.fds[i as int]) == Some(
                word as u32,
            ),
            _ => true,
        },
    ensures
        sorted_out(next(n, s, answer).0, numbers),
{
    reveal(Seq::filter);
    let pred = masters_of(numbers, s.ptn);
    match (s.phase, answer) {
        (Phase::Listing, AnswerView::Numbers(fds)) => {
            assert(fds.take(0) =~= Seq::<i32>::empty());
            assert(fds.take(0).filter(pred) =~= Seq::<i32>::empty());
            assert(s.masters =~= Seq::<i32>::empty());
            if fds.len() == 0 {
                assert(fds.filter(pred) =~= Seq::<i32>::empty());
            }
        },
        (Phase::Asking(i), _) | (Phase::Reading(i), _) => {
            assert(s.fds.take(i + 1).drop_last() =~= s.fds.take(i as int));
            assert(s.fds.take(i + 1).last() == s.fds[i as int]);
            if i + 1 == s.fds.len() {
                assert(s.fds.take(i + 1) =~= s.fds);
            }
        },
        _ => {},
    }
}

/// The masters that a theft goes on with are exactly the emulator's fds
/// that say that they are the master of the target's pty. When there is
/// none, it ends with an error.
pub proof fn masters_are_found(
    n: Syscalls,
    emulator: i32,
    scratch: u64,
    ptn: u32,
    sid: i32,
    answers: Seq<AnswerView>,
    numbers: spec_fn(i32) -> Option<u32>,
)
    requires
        ({
            let s = begun(emulator, scratch, ptn, sid);
            let step = StepView::<i32>::Do(RequestView::ListMasters { pid: emulator });
            &&& accepts(n, s, step, answers)
            &&& truthful(n, s, step, answers, numbers)
        }),
        forall|k: int|
            0 <= k < answers.len() ==> (#[trigger] answers[k] matches AnswerView::Numbers(fds)
                ==> fds.len() <= usize::MAX),
    ensures
        ({
            let s = begun(emulator, scratch, ptn, sid);
            let step = StepView::<i32>::Do(RequestView::ListMasters { pid: emulator });
            let t = after(n, s, step, answers).0;
            t.phase is Binding ==> t.masters == t.fds.filter(masters_of(numbers, ptn))
                && t.masters.len() > 0
        }),
{
    let s = begun(emulator, scratch, ptn, sid);
    let step = StepView::<i32>::Do(RequestView::ListMasters { pid: emulator });
    lemma_masters(n, s, step, answers, numbers);
}

proof fn lemma_masters(
    n: Syscalls,
    s: TheftView,
    step: StepView<i32>,
    answers: Seq<AnswerView>,
    numbers: spec_fn(i32) -> Option<u32>,
)
    requires
        s.phase is Listing,
        sorted_out(s, numbers),
        s.fds.len() <= usize::MAX,
        accepts(n, s, step, answers),
        truthful(n, s, step, answers, numbers),
        forall|k: int|
            0 <= k < answers.len() ==> (#[trigger] answers[k] matches AnswerView::Numbers(fds)
                ==> fds.len() <= usize::MAX),
    ensures
        ({
            let t = after(n, s, step, answers).0;
            &&& sorted_out(t, numbers)
            &&& t.ptn == s.ptn
            &&& t.fds.len() <= usize::MAX
            &&& t.phase is Binding ==> t.masters.len() > 0
        }),
    decreases answers.len(),
{
    if answers.len() > 0 {
        let front = answers.drop_last();
        assert forall|k: int| 0 <= k < front.len() implies (
        #[trigger] front[k] matches AnswerView::Numbers(fds) ==> fds.len() <= usize::MAX) by {
            assert(front[k] == answers[k]);
        }
        lemma_masters(n, s, step, front, numbers);
        assert(answers.last() == answers[answers.len() - 1]);
        lemma_sorted_out_step(n, after(n, s, step, front).0, answers.last(), numbers);
    }
}

/// Handing the master over and making the session immune.
pub open spec fn hand_over(n: Syscalls, s: TheftView, path: Seq<u8>) -> Seq<RequestView> {
    seq![
        RequestView::Bind,
        RequestView::Write {
            addr: (s.scratch + SOCKADDR_OFF) as u64,
            data: steal::sockaddr(path),
        },
        RequestView::Call {
            nr: n.socket,
            args: seq![AF_UNIX as u64, SOCK_DGRAM as u64, 0, 0, 0, 0],
        },
        RequestView::Call {
            nr: n.connect,
            args: seq![
                s.socket as u64,
                (s.scratch + SOCKADDR_OFF) as u64,
                SOCKADDR_LEN,
                0,
                0,
                0,
            ],
        },
        RequestView::Write {
            addr: (s.scratch + MSGHDR_OFF) as u64,
            data: steal::msghdr((s.scratch + CMSG_OFF) as u64),
        },
        RequestView::Write {
            addr: (s.scratch + CMSG_OFF) as u64,
            data: steal::cmsg(s.masters[0]),
        },
        RequestView::Call {
            nr: n.sendmsg,
            args: seq![(s.socket as i32) as u64, (s.scratch + MSGHDR_OFF) as u64, 0, 0, 0, 0],
        },
        RequestView::Receive,
        RequestView::Shield { pid: s.sid },
        RequestView::Write {
            addr: (s.scratch + PATH_OFF) as u64,
            data: bytes::c_bytes("/dev/null"@),
        },
        RequestView::Call {
            nr: n.openat,
            args: seq![AT_FDCWD as u64, (s.scratch + PATH_OFF) as u64, O_RDWR as u64, 0, 0, 0],
        },
    ]
}

/// Replacing the emulator's copies of the master by the null device.
pub open spec fn covers(n: Syscalls, s: TheftView) -> Seq<RequestView> {
    Seq::new(
        s.masters.len(),
        |i: int|
            RequestView::Call {
                nr: n.dup,
                args: seq![s.null_fd as u64, s.masters[i] as u64, 0, 0, 0, 0],
            },
    )
}

/// Closing a descriptor of the emulator.
pub open spec fn close_call(n: Syscalls, fd: u64) -> RequestView {
    RequestView::Call { nr: n.close, args: seq![fd, 0, 0, 0, 0, 0] }
}

/// What comes before the outstanding request, once the masters are known.
spec fn trail(n: Syscalls, s: TheftView, path: Seq<u8>) -> Seq<RequestView> {
    let front = hand_over(n, s, path);
    match s.phase {
        Phase::Binding => Seq::empty(),
        Phase::Addressing => front.take(1),
        Phase::Socketing => front.take(2),
        Phase::Connecting => front.take(3),
        Phase::Heading => front.take(4),
        Phase::Controlling => front.take(5),
        Phase::Sending => front.take(6),
        Phase::Receiving => front.take(7),
        Phase::Shielding => front.take(8),
        Phase::Naming => front.take(9),
        Phase::Nulling => front.take(10),
        Phase::Covering(i) => front + covers(n, s).take(i as int),
        Phase::Uncovering => front + covers(n, s),
        _ => arbitrary(),
    }
}

/// Handing over, then covering, and dropping the null device again.
pub open spec fn covered(n: Syscalls, s: TheftView, path: Seq<u8>) -> Seq<RequestView> {
    hand_over(n, s, path) + covers(n, s) + seq![close_call(n, s.null_fd as u64)]
}

spec fn current(n: Syscalls, s: TheftView, path: Seq<u8>) -> RequestView {
    match s.phase {
        Phase::Binding => hand_over(n, s, path)[0],
        Phase::Addressing => hand_over(n, s, path)[1],
        Phase::Socketing => hand_over(n, s, path)[2],
        Phase::Connecting => hand_over(n, s, path)[3],
        Phase::Heading => hand_over(n, s, path)[4],
        Phase::Controlling => hand_over(n, s, path)[5],
        Phase::Sending => hand_over(n, s, path)[6],
        Phase::Receiving => hand_over(n, s, path)[7],
        Phase::Shielding => hand_over(n, s, path)[8],
        Phase::Naming => hand_over(n, s, path)[9],
        Phase::Nulling => hand_over(n, s, path)[10],
        Phase::Covering(i) => covers(n, s)[i as int],
        Phase::Uncovering => close_call(n, s.null_fd as u64),
        Phase::Closing => close_call(n, (s.socket as i32) as u64),
        _ => arbitrary(),
    }
}

/// Whether the null device could be opened in the emulator: what the
/// `openat` of [`hand_over`] returned.
pub open spec fn null_opened(answers: Seq<AnswerView>) -> bool {
    answers[10] matches AnswerView::Value(value) && value >= 0
}

/// Everything that a theft asks for once it knows the masters: the copies
/// are covered exactly when there is something to cover them with.
pub open spec fn script(
    n: Syscalls,
    s: TheftView,
    path: Seq<u8>,
    answers: Seq<AnswerView>,
) -> Seq<RequestView> {
    if null_opened(answers) {
        covered(n, s, path)
    } else {
        hand_over(n, s, path)
    }.push(close_call(n, (s.socket as i32) as u64))
}

/// What the theft keeps of the answers.
spec fn kept(s: TheftView, answers: Seq<AnswerView>) -> bool {
    &&& answers.len() > 2 ==> answers[2] == AnswerView::Value(s.socket)
    &&& answers.len() > 7 ==> answers[7] == AnswerView::Number(s.stolen)
    &&& answers.len() > 10 && null_opened(answers) ==> answers[10] == AnswerView::Value(s.null_fd)
}

/// How a theft that knows the masters stands to what it asked for since.
spec fn on_script(
    n: Syscalls,
    s: TheftView,
    step: StepView<i32>,
    asked: Seq<RequestView>,
    path: Seq<u8>,
    answers: Seq<AnswerView>,
) -> bool {
    &&& s.masters.len() > 0
    &&& asked.len() == answers.len()
    &&& !(s.phase is Over || s.phase is Hanging) || (step matches StepView::Finish(Ok(_))) ==> kept(
        s,
        answers,
    )
    &&& match s.phase {
        Phase::Listing | Phase::Asking(_) | Phase::Reading(_) => false,
        Phase::Over => step matches StepView::Finish(Ok(fd)) ==> {
            &&& fd == s.stolen
            &&& answers.len() > 11
            &&& asked == script(n, s, path, answers)
        },
        Phase::Hanging => step is Do,
        Phase::Closing => {
            &&& step == StepView::<i32>::Do(current(n, s, path))
            &&& answers.len() > 10
            &&& asked == script(n, s, path, answers).drop_last()
        },
        Phase::Covering(i) => {
            &&& i < s.masters.len()
            &&& null_opened(answers)
            &&& step == StepView::<i32>::Do(current(n, s, path))
            &&& asked == trail(n, s, path)
        },
        _ => {
            &&& step == StepView::<i32>::Do(current(n, s, path))
            &&& asked == trail(n, s, path)
            &&& s.phase is Uncovering ==> null_opened(answers)
        },
    }
}

#[verifier::spinoff_prover]
proof fn lemma_on_script_step(
    n: Syscalls,
    s: TheftView,
    step: StepView<i32>,
    answer: AnswerView,
    asked: Seq<RequestView>,
    path: Seq<u8>,
    before: Seq<AnswerView>,
)
    requires
        on_script(n, s, step, asked, path, before),
        expects(s, answer),
        s.masters.len() <= usize::MAX,
        answer matches AnswerView::Path(p) ==> p == path,
    ensures
        ({
            let (s2, step2) = next(n, s, answer);
            on_script(n, s2, step2, asked.push(step->Do_0), path, before.push(answer))
        }),
{
    let (s2, step2) = next(n, s, answer);
    let asked2 = asked.push(step->Do_0);
    let answers = before.push(answer);
    match s2.phase {
        Phase::Hanging => {},
        Phase::Over => {
            if s.phase is Closing {
                assert(asked2 =~= script(n, s2, path, answers));
            }
        },
        Phase::Closing => {
            assert(asked2 =~= script(n, s2, path, answers).drop_last());
        },
        _ => {
            assert(asked2 =~= trail(n, s2, path));
        },
    }
}

proof fn lemma_on_script(
    n: Syscalls,
    s: TheftView,
    step: StepView<i32>,
    answers: Seq<AnswerView>,
    path: Seq<u8>,
)
    requires
        on_script(n, s, step, Seq::empty(), path, Seq::empty()),
        s.masters.len() <= usize::MAX,
        accepts(n, s, step, answers),
        forall|k: int|
            0 <= k < answers.len() ==> (#[trigger] answers[k] matches AnswerView::Path(p) ==> p
                == path),
    ensures
        ({
            let (t, tstep) = after(n, s, step, answers);
            &&& t.masters == s.masters
            &&& t.scratch == s.scratch
            &&& t.sid == s.sid
            &&& on_script(n, t, tstep, requests(n, s, step, answers), path, answers)
        }),
    decreases answers.len(),
{
    if answers.len() > 0 {
        let front = answers.drop_last();
        assert forall|k: int| 0 <= k < front.len() implies (
        #[trigger] front[k] matches AnswerView::Path(p) ==> p == path) by {
            assert(front[k] == answers[k]);
        }
        lemma_on_script(n, s, step, front, path);
        assert(answers.last() == answers[answers.len() - 1]);
        let (t, tstep) = after(n, s, step, front);
        lemma_on_script_step(
            n,
            t,
            tstep,
            answers.last(),
            requests(n, s, step, front),
            path,
            front,
        );
        assert(front.push(answers.last()) =~= answers);
    }
}

/// A theft that succeeds has, once the masters were known, handed the first
/// of them over through the socket at `path`, made the session immune to
/// the hangup, then replaced every copy of the emulator's by the null
/// device, exactly when that could be opened, and closed what it had opened
/// in the emulator. It ends with the fd that was received.
pub proof fn successful_theft_hands_over_and_covers(
    n: Syscalls,
    s: TheftView,
    answers: Seq<AnswerView>,
    path: Seq<u8>,
)
    requires
        s.phase is Binding,
        0 < s.masters.len() <= usize::MAX,
        accepts(n, s, StepView::Do(RequestView::Bind), answers),
        forall|k: int|
            0 <= k < answers.len() ==> (#[trigger] answers[k] matches AnswerView::Path(p) ==> p
                == path),
        after(n, s, StepView::Do(RequestView::Bind), answers).1 matches StepView::Finish(Ok(_)),
    ensures
        ({
            let step = StepView::Do(RequestView::Bind);
            let (t, tstep) = after(n, s, step, answers);
            let asked = requests(n, s, step, answers);
            &&& t.masters == s.masters && t.scratch == s.scratch && t.sid == s.sid
            &&& tstep == StepView::<i32>::Finish(Ok(t.stolen))
            &&& answers.len() > 11
            &&& asked == script(n, t, path, answers)
            &&& answers[2] == AnswerView::Value(t.socket)
            &&& answers[7] == AnswerView::Number(t.stolen)
            &&& null_opened(answers) ==> answers[10] == AnswerView::Value(t.null_fd)
        }),
{
    let step = StepView::Do(RequestView::Bind);
    assert(trail(n, s, path) =~= Seq::<RequestView>::empty());
    lemma_on_script(n, s, step, answers, path);
    assert(after(n, s, step, answers).0.phase is Over) by {
        lemma_finished(n, s, step, answers);
    }
}

proof fn lemma_finished(n: Syscalls, s: TheftView, step: StepView<i32>, answers: Seq<AnswerView>)
    requires
        step is Do,
        accepts(n, s, step, answers),
    ensures
        after(n, s, step, answers).1 is Finish ==> after(n, s, step, answers).0.phase is Over,
    decreases answers.len(),
{
    if answers.len() > 0 {
        lemma_finished(n, s, step, answers.drop_last());
    }
}

/// Everything that a theft writes into the emulator goes into the scratch
/// page, each structure at a place of its own.
pub proof fn writes_stay_in_the_scratch_page(n: Syscalls, s: TheftView, answer: AnswerView)
    requires
        s.wf(),
        expects(s, answer),
    ensures
        next(n, s, answer).1 matches StepView::Do(RequestView::Write { addr, data }) ==> {
            let end = addr + 8 * ptrace::words_for(data.len());
            ||| s.scratch + PATH_OFF == addr && end <= s.scratch + MSGHDR_OFF
            ||| s.scratch + MSGHDR_OFF == addr && end <= s.scratch + CMSG_OFF
            ||| s.scratch + CMSG_OFF == addr && end <= s.scratch + SOCKADDR_OFF
            ||| s.scratch + SOCKADDR_OFF == addr && end <= s.scratch + PTN_OFF
        },
        PTN_OFF + 8 <= PAGE_SIZE,
{
    reveal_strlit("/dev/null");
    bytes::ascii_takes_a_byte_each("/dev/null"@);
}

/// Whatever a request can bring back, the theft is prepared for it.
pub proof fn every_answer_is_expected(
    n: Syscalls,
    s: TheftView,
    given: AnswerView,
    request: RequestView,
    answer: AnswerView,
)
    requires
        expects(s, given),
        next(n, s, given).1 == StepView::<i32>::Do(request),
        remote::answers(request, answer),
    ensures
        expects(next(n, s, given).0, answer),
{
}

/// The pty masters of the emulator are asked for their numbers one by one
/// and in order, each by its own descriptor, and the number is read from
/// where the answer was put; the socket is opened once all were asked.
pub proof fn masters_are_asked_one_by_one(n: Syscalls, s: TheftView, answer: AnswerView)
    requires
        s.wf(),
        s.phase is Listing ==> s.masters.len() == 0,
        s.fds.len() <= usize::MAX,
        answer matches AnswerView::Numbers(fds) ==> fds.len() <= usize::MAX,
        expects(s, answer),
    ensures
        ({
            let (t, step) = next(n, s, answer);
            &&& t.emulator == s.emulator && t.ptn == s.ptn && t.sid == s.sid && t.scratch
                == s.scratch
            &&& s.phase is Listing && answer is Numbers ==> t.fds == answer->Numbers_0
            &&& !(s.phase is Listing) ==> t.fds == s.fds
            &&& t.phase matches Phase::Asking(i) ==> {
                &&& i < t.fds.len()
                &&& step == StepView::<i32>::Do(
                    RequestView::Call {
                        nr: n.ioctl,
                        args: seq![
                            t.fds[i as int] as u64,
                            0x8004_5430,
                            (t.scratch + 0x300) as u64,
                            0,
                            0,
                            0,
                        ],
                    },
                )
                &&& match s.phase {
                    Phase::Listing => i == 0,
                    Phase::Asking(j) => i == j + 1 && (answer matches AnswerView::Value(value)
                        && value < 0),
                    Phase::Reading(j) => i == j + 1,
                    _ => false,
                }
            }
            &&& t.phase matches Phase::Reading(i) ==> {
                &&& s.phase == Phase::Asking(i)
                &&& answer matches AnswerView::Value(value)
                &&& value >= 0
                &&& step == StepView::<i32>::Do(
                    RequestView::Read { addr: (t.scratch + 0x300) as u64 },
                )
            }
            &&& t.phase is Binding ==> {
                &&& step == StepView::<i32>::Do(RequestView::Bind)
                &&& t.masters.len() > 0
                &&& match s.phase {
                    Phase::Asking(j) => j + 1 == t.fds.len(),
                    Phase::Reading(j) => j + 1 == t.fds.len(),
                    _ => false,
                }
            }
            &&& t.masters == match (s.phase, answer) {
                (Phase::Reading(i), AnswerView::Word(word)) => if word % 0x1_0000_0000 == s.ptn {
                    s.masters.push(s.fds[i as int])
                } else {
                    s.masters
                },
                _ => s.masters,
            }
        }),
{
    if let AnswerView::Word(word) = answer {
        assert(word as u32 == word % 0x1_0000_0000) by (bit_vector);
    }
}

/// A theft fails for a reason, and says which: a request failed that
/// matters, the emulator refused its socket, the connection or the message,
/// or none of its masters is that of the pty. A refused connection is
/// closed first. No other answer ends it without the fd, whatever its
/// value.
pub proof fn theft_fails_for_a_reason(n: Syscalls, s: TheftView, answer: AnswerView)
    requires
        s.wf(),
        s.fds.len() <= usize::MAX,
        answer matches AnswerView::Numbers(fds) ==> fds.len() <= usize::MAX,
        expects(s, answer),
    ensures
        ({
            let (t, step) = next(n, s, answer);
            let failed = step matches StepView::Finish(Err(_));
            let e = step->Finish_0->Err_0;
            let best_effort = s.phase is Covering || s.phase is Uncovering || s.phase is Closing;
            let none_found = ErrorView::Msg(
                "no master fd for pty "@ + text::decimal(s.ptn as nat) + " found in emulator "@
                    + text::signed_decimal(s.emulator as int),
            );
            &&& step matches StepView::Finish(Ok(fd)) ==> s.phase is Closing && fd == s.stolen
            &&& s.phase is Closing ==> step == StepView::<i32>::Finish(Ok(s.stolen))
            &&& s.phase is Hanging ==> failed && e == ErrorView::Msg(
                "remote connect() failed (errno "@ + text::signed_decimal(-s.refusal)
                    + "); the emulator may run as another user (try sudo)"@,
            )
            &&& best_effort ==> !failed
            &&& !best_effort && !(s.phase is Hanging) ==> match answer {
                AnswerView::Failed(given) => failed && e == given,
                AnswerView::Value(value) => match s.phase {
                    Phase::Socketing => if value < 0 {
                        failed && e == remote::failed("remote socket()"@, value)
                    } else {
                        !failed && t.socket == value
                    },
                    Phase::Sending => if value < 0 {
                        failed && e == remote::failed("remote sendmsg()"@, value)
                    } else {
                        !failed
                    },
                    Phase::Connecting => {
                        &&& !failed
                        &&& value < 0 <==> t.phase is Hanging
                        &&& value < 0 ==> t.refusal == value && step == StepView::<i32>::Do(
                            RequestView::Call {
                                nr: n.close,
                                args: seq![s.socket as u64, 0, 0, 0, 0, 0],
                            },
                        )
                    },
                    Phase::Asking(i) => {
                        &&& failed <==> value < 0 && i + 1 == s.fds.len() && s.masters.len() == 0
                        &&& failed ==> e == none_found
                    },
                    _ => !failed,
                },
                AnswerView::Numbers(fds) => {
                    &&& failed <==> fds.len() == 0 && s.masters.len() == 0
                    &&& failed ==> e == none_found
                },
                AnswerView::Word(_) => {
                    &&& failed <==> t.masters.len() == 0 && s.phase == Phase::Reading(
                        (s.fds.len() - 1) as usize,
                    )
                    &&& failed ==> e == none_found
                },
                _ => !failed,
            }
        }),
{
}

/// A theft sticks to what it was told: from beginning to end it is about
/// the same emulator, pty, session and scratch page.
pub proof fn theft_sticks_to_its_target(
    n: Syscalls,
    emulator: i32,
    scratch: u64,
    ptn: u32,
    sid: i32,
    answers: Seq<AnswerView>,
)
    requires
        accepts(
            n,
            begun(emulator, scratch, ptn, sid),
            StepView::<i32>::Do(RequestView::ListMasters { pid: emulator }),
            answers,
        ),
    ensures
        ({
            let t = after(
                n,
                begun(emulator, scratch, ptn, sid),
                StepView::<i32>::Do(RequestView::ListMasters { pid: emulator }),
                answers,
            ).0;
            &&& t.emulator == emulator
            &&& t.scratch == scratch
            &&& t.ptn == ptn
            &&& t.sid == sid
        }),
    decreases answers.len(),
{
    if answers.len() > 0 {
        theft_sticks_to_its_target(n, emulator, scratch, ptn, sid, answers.drop_last());
    }
}

/// An answer that reports no error: no failure, and no negative value.
pub open spec fn in_order(answer: AnswerView) -> bool {
    match answer {
        AnswerView::Failed(_) => false,
        AnswerView::Value(value) => value >= 0,
        _ => true,
    }
}

/// Once the masters are known, a theft whose requests are all answered in
/// order does not fail, whatever the values are: it goes through the whole
/// script and ends with the fd that was received.
pub proof fn undisturbed_theft_succeeds(
    n: Syscalls,
    s: TheftView,
    answers: Seq<AnswerView>,
    path: Seq<u8>,
)
    requires
        s.phase is Binding,
        s.wf(),
        s.masters.len() <= usize::MAX,
        accepts(n, s, StepView::Do(RequestView::Bind), answers),
        forall|k: int| 0 <= k < answers.len() ==> in_order(#[trigger] answers[k]),
        forall|k: int|
            0 <= k < answers.len() ==> (#[trigger] answers[k] matches AnswerView::Path(p) ==> p
                == path),
    ensures
        ({
            let step = StepView::Do(RequestView::Bind);
            let (t, tstep) = after(n, s, step, answers);
            match tstep {
                StepView::Do(_) => true,
                StepView::Finish(result) => {
                    &&& result == Ok::<i32, ErrorView>(t.stolen)
                    &&& requests(n, s, step, answers) == covered(n, t, path).push(
                        close_call(n, (t.socket as i32) as u64),
                    )
                    &&& answers[7] == AnswerView::Number(t.stolen)
                },
            }
        }),
{
    let step = StepView::Do(RequestView::Bind);
    lemma_undisturbed(n, s, step, answers);
    if after(n, s, step, answers).1 is Finish {
        successful_theft_hands_over_and_covers(n, s, answers, path);
        assert(in_order(answers[10]));
        assert(requests(n, s, step, answers)[10] == hand_over(n, s, path)[10]) by {
            let t = after(n, s, step, answers).0;
            assert(script(n, t, path, answers)[10] == hand_over(n, t, path)[10]);
        }
        lemma_eleventh(n, s, step, answers);
    }
}

proof fn lemma_undisturbed(
    n: Syscalls,
    s: TheftView,
    step: StepView<i32>,
    answers: Seq<AnswerView>,
)
    requires
        s.phase is Binding,
        s.wf(),
        step is Do,
        accepts(n, s, step, answers),
        forall|k: int| 0 <= k < answers.len() ==> in_order(#[trigger] answers[k]),
    ensures
        ({
            let (t, tstep) = after(n, s, step, answers);
            &&& !(t.phase is Hanging || t.phase is Listing || t.phase is Asking || t.phase
                is Reading)
            &&& tstep is Finish ==> t.phase is Over && (tstep matches StepView::Finish(Ok(_)))
        }),
    decreases answers.len(),
{
    if answers.len() > 0 {
        let front = answers.drop_last();
        assert forall|k: int| 0 <= k < front.len() implies in_order(#[trigger] front[k]) by {
            assert(front[k] == answers[k]);
        }
        lemma_undisturbed(n, s, step, front);
        assert(in_order(answers[answers.len() - 1]));
    }
}

/// The eleventh answer, where there is one, is the value of a call.
proof fn lemma_eleventh(
    n: Syscalls,
    s: TheftView,
    step: StepView<i32>,
    answers: Seq<AnswerView>,
)
    requires
        s.phase is Binding,
        s.wf(),
        step is Do,
        accepts(n, s, step, answers),
        answers.len() > 10,
        forall|k: int| 0 <= k < answers.len() ==> in_order(#[trigger] answers[k]),
    ensures
        answers[10] is Value,
    decreases answers.len(),
{
    let front = answers.drop_last();
    assert forall|k: int| 0 <= k < front.len() implies in_order(#[trigger] front[k]) by {
        assert(front[k] == answers[k]);
    }
    if answers.len() > 11 {
        lemma_eleventh(n, s, step, front);
        assert(front[10] == answers[10]);
    } else {
        lemma_tenth(n, s, step, front);
        assert(in_order(answers[10]));
    }
}

/// After so many answers in order, so many requests were made.
proof fn lemma_tenth(n: Syscalls, s: TheftView, step: StepView<i32>, answers: Seq<AnswerView>)
    requires
        s.phase is Binding,
        s.wf(),
        step is Do,
        accepts(n, s, step, answers),
        answers.len() <= 10,
        forall|k: int| 0 <= k < answers.len() ==> in_order(#[trigger] answers[k]),
    ensures
        ({
            let phase = after(n, s, step, answers).0.phase;
            &&& answers.len() == 0 ==> phase is Binding
            &&& answers.len() == 1 ==> phase is Addressing
            &&& answers.len() == 2 ==> phase is Socketing
            &&& answers.len() == 3 ==> phase is Connecting
            &&& answers.len() == 4 ==> phase is Heading
            &&& answers.len() == 5 ==> phase is Controlling
            &&& answers.len() == 6 ==> phase is Sending
            &&& answers.len() == 7 ==> phase is Receiving
            &&& answers.len() == 8 ==> phase is Shielding
            &&& answers.len() == 9 ==> phase is Naming
            &&& answers.len() == 10 ==> phase is Nulling
        }),
    decreases answers.len(),
{
    if answers.len() > 0 {
        let front = answers.drop_last();
        assert forall|k: int| 0 <= k < front.len() implies in_order(#[trigger] front[k]) by {
            assert(front[k] == answers[k]);
        }
        lemma_tenth(n, s, step, front);
        assert(in_order(answers[answers.len() - 1]));
    }
}

} // verus!
