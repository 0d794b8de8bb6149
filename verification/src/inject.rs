//! The redirection plan, executed inside the tracee through the hijack
//! engine. Architecture-independent: syscall numbers and calling
//! conventions come from [`crate::arch`].
//!
//! Sequence (all executed as hijacked syscalls inside the target):
//!   mmap a scratch page -> stage the new pty path and a sigaction ->
//!   rt_sigaction(SIGHUP, SIG_IGN) -> move to a fresh session
//!   (TIOCNOTTY, or the fork/setpgid/setsid dance) -> openat the new pty
//!   slave -> TIOCSCTTY -> dup onto the selected fds -> close -> munmap.

use vstd::prelude::*;

use crate::abi::{
    AT_FDCWD, MAP_ANONYMOUS, MAP_PRIVATE, O_NOCTTY, O_RDWR, PAGE_SIZE, PROT_READ, PROT_WRITE,
    SIGHUP, SIGKILL, SIG_IGN, TIOCNOTTY, TIOCSCTTY, WNOHANG,
};
use crate::arch::{Arch, Syscalls};
use crate::bytes;
use crate::bytes::{c_string, push_word, push_zeros};
use crate::error;
use crate::error::{Error, ErrorView};
use crate::ptrace;
use crate::remote;
use crate::remote::{Answer, AnswerView, Request, RequestView, Step, StepView};
use crate::text;
use crate::text::{copy_text, push_signed};

verus! {

/// Offsets into the scratch page staged inside the tracee.
pub const PATH_OFF: u64 = 0x000;

/// A kernel `struct sigaction` with `sa_handler = SIG_IGN`. The handler
/// is the first field on every supported architecture.
pub const ACT_OFF: u64 = 0x100;

/// A `struct sigaction` that ignores its signal: the handler, then zeros.
pub open spec fn sigign() -> Seq<u8> {
    bytes::word_bytes(SIG_IGN) + Seq::new(24, |i: int| 0u8)
}

pub fn sigign_bytes() -> (r: Vec<u8>)
    ensures
        r@ == sigign(),
{
    let mut r: Vec<u8> = Vec::new();
    push_word(&mut r, SIG_IGN);
    push_zeros(&mut r, 24);
    assert(r@ =~= sigign());
    r
}

/// Where a target moves to.
#[derive(Debug)]
pub struct Plan {
    /// Path of the fresh pty slave the target moves to.
    pub slave_path: String,
    /// Target file descriptors to redirect onto the new terminal.
    pub fds: Vec<i32>,
    /// Whether the target already leads a session (decides between a
    /// plain TIOCNOTTY and the fork/setpgid/setsid dance).
    pub is_session_leader: bool,
}

pub struct PlanView {
    pub slave_path: Seq<char>,
    pub fds: Seq<i32>,
    pub is_session_leader: bool,
}

impl View for Plan {
    type V = PlanView;

    open spec fn view(&self) -> PlanView {
        PlanView {
            slave_path: self.slave_path@,
            fds: self.fds@,
            is_session_leader: self.is_session_leader,
        }
    }
}

impl PlanView {
    /// A path that can be handed to the kernel; and a session leader has an
    /// fd by which to drop its old terminal.
    pub open spec fn wf(self) -> bool {
        &&& !self.slave_path.contains('\0')
        &&& self.is_session_leader ==> self.fds.len() > 0
    }
}

// ---------------------------------------------------------------------
// Single calls
// ---------------------------------------------------------------------

/// Allocate an anonymous scratch page.
pub open spec fn mmap_call(n: Syscalls) -> RequestView {
    RequestView::Call {
        nr: n.mmap,
        args: seq![
            0,
            PAGE_SIZE,
            (PROT_READ + PROT_WRITE) as u64,
            (MAP_PRIVATE + MAP_ANONYMOUS) as u64,
            u64::MAX,
            0,
        ],
    }
}

/// Release the scratch page.
pub open spec fn munmap_call(n: Syscalls, scratch: u64) -> RequestView {
    RequestView::Call { nr: n.munmap, args: seq![scratch, PAGE_SIZE, 0, 0, 0, 0] }
}

/// Stage the sigaction.
pub open spec fn stage_action(scratch: u64) -> RequestView {
    RequestView::Write { addr: (scratch + ACT_OFF) as u64, data: sigign() }
}

/// Make the process ignore SIGHUP by the staged sigaction.
pub open spec fn sigaction_call(n: Syscalls, scratch: u64) -> RequestView {
    RequestView::Call {
        nr: n.rt_sigaction,
        args: seq![SIGHUP as u64, (scratch + ACT_OFF) as u64, 0, 8, 0, 0],
    }
}

pub open spec fn sigaction_failed(value: i64) -> ErrorView {
    remote::failed("remote rt_sigaction(SIGHUP, SIG_IGN)"@, value)
}

pub fn request_mmap<A: Arch>(a: &A) -> (r: Request)
    ensures
        r@ == mmap_call(A::numbers()),
{
    Request::Call {
        nr: a.nr_mmap(),
        args: [
            0,
            PAGE_SIZE,
            (PROT_READ + PROT_WRITE) as u64,
            (MAP_PRIVATE + MAP_ANONYMOUS) as u64,
            0xffff_ffff_ffff_ffff,
            0,
        ],
    }
}

/// What mmap came to.
pub open spec fn scratch_meaning(value: i64) -> Result<u64, ErrorView> {
    if value < 0 {
        Err(remote::failed("remote mmap"@, value))
    } else {
        Ok(value as u64)
    }
}

/// The address of the scratch page, from what mmap returned.
pub fn mmap_scratch(value: i64) -> (r: Result<u64, Error>)
    requires
        value > i64::MIN,
    ensures
        error::outcome(r) == if value < 0 {
            Err::<u64, ErrorView>(remote::failed("remote mmap"@, value))
        } else {
            Ok::<u64, ErrorView>(value as u64)
        },
        error::outcome(r) == scratch_meaning(value),
{
    if value < 0 {
        return Err(remote::failure("remote mmap", value));
    }
    Ok(value as u64)
}

/// Release a scratch page.
pub fn munmap_scratch<A: Arch>(a: &A, scratch: u64) -> (r: Request)
    ensures
        r@ == munmap_call(A::numbers(), scratch),
{
    Request::Call { nr: a.nr_munmap(), args: [scratch, PAGE_SIZE, 0, 0, 0, 0] }
}

// ---------------------------------------------------------------------
// Ignoring SIGHUP
// ---------------------------------------------------------------------

/// Which request is outstanding.
#[derive(Debug, Clone, Copy, PartialEq, Eq, Structural)]
pub enum ShieldPhase {
    Staging,
    Acting,
    Over,
}

/// Making the tracee ignore SIGHUP.
pub struct Shielding {
    scratch: u64,
    phase: ShieldPhase,
}

pub struct ShieldingView {
    pub scratch: u64,
    pub phase: ShieldPhase,
}

impl View for Shielding {
    type V = ShieldingView;

    closed spec fn view(&self) -> ShieldingView {
        ShieldingView { scratch: self.scratch, phase: self.phase }
    }
}

/// What happens with an answer.
pub open spec fn next_shield(n: Syscalls, s: ShieldingView, answer: AnswerView) -> (
    ShieldingView,
    StepView<()>,
) {
    let over = ShieldingView { phase: ShieldPhase::Over, ..s };
    match (s.phase, answer) {
        (_, AnswerView::Failed(e)) => (over, StepView::Finish(Err(e))),
        (ShieldPhase::Staging, _) => (
            ShieldingView { phase: ShieldPhase::Acting, ..s },
            StepView::Do(sigaction_call(n, s.scratch)),
        ),
        (ShieldPhase::Acting, AnswerView::Value(value)) => (
            over,
            StepView::Finish(
                if value < 0 {
                    Err(sigaction_failed(value))
                } else {
                    Ok(())
                },
            ),
        ),
        _ => arbitrary(),
    }
}

/// Whether `answer` can be the answer that is waited for.
pub open spec fn expects_shield(s: ShieldingView, answer: AnswerView) -> bool {
    match s.phase {
        ShieldPhase::Staging => answer is Done || answer is Failed,
        ShieldPhase::Acting => {
            ||| answer is Failed
            ||| answer matches AnswerView::Value(value) && value > i64::MIN
        },
        ShieldPhase::Over => false,
    }
}

/// How it begins.
pub open spec fn begun_shield(scratch: u64) -> (ShieldingView, StepView<()>) {
    (ShieldingView { scratch, phase: ShieldPhase::Staging }, StepView::Do(stage_action(scratch)))
}

/// Make the tracee ignore SIGHUP, so it survives its terminal going away.
/// Stages the sigaction in a scratch page.
pub fn ignore_sighup(scratch: u64) -> (r: (Shielding, Step<()>))
    requires
        scratch + ACT_OFF <= u64::MAX,
    ensures
        r.0@ == (ShieldingView { scratch, phase: ShieldPhase::Staging }),
        (r.0@, r.1@) == begun_shield(scratch),
        r.1@ == StepView::<()>::Do(stage_action(scratch)),
{
    (
        Shielding { scratch, phase: ShieldPhase::Staging },
        Step::Do(Request::Write { addr: scratch + ACT_OFF, data: sigign_bytes() }),
    )
}

fn request_sigaction<A: Arch>(a: &A, scratch: u64) -> (r: Request)
    requires
        scratch + ACT_OFF <= u64::MAX,
    ensures
        r@ == sigaction_call(A::numbers(), scratch),
{
    Request::Call {
        nr: a.nr_rt_sigaction(),
        args: [SIGHUP as u64, scratch + ACT_OFF, 0, 8, 0, 0],
    }
}

fn sigaction_failure(value: i64) -> (e: Error)
    requires
        value > i64::MIN,
    ensures
        e@ == sigaction_failed(value),
{
    remote::failure("remote rt_sigaction(SIGHUP, SIG_IGN)", value)
}

impl Shielding {
    /// Go on, now that the request was answered.
    pub fn step<A: Arch>(&mut self, a: &A, answer: Answer) -> (r: Step<()>)
        requires
            old(self)@.scratch + ACT_OFF <= u64::MAX,
            expects_shield(old(self)@, answer@),
        ensures
            final(self)@ == next_shield(A::numbers(), old(self)@, answer@).0,
            r@ == next_shield(A::numbers(), old(self)@, answer@).1,
    {
        let phase: ShieldPhase = self.phase;
        self.phase = ShieldPhase::Over;
        match (phase, answer) {
            (_, Answer::Failed(e)) => Step::Finish(Err(e)),
            (ShieldPhase::Staging, _) => {
                self.phase = ShieldPhase::Acting;
                Step::Do(request_sigaction(a, self.scratch))
            },
            (ShieldPhase::Acting, Answer::Value(value)) => if value < 0 {
                Step::Finish(Err(sigaction_failure(value)))
            } else {
                Step::Finish(Ok(()))
            },
            // No other answer is expected.
            _ => Step::Finish(Err(Error::Os(0))),
        }
    }
}

// ---------------------------------------------------------------------
// The whole plan
// ---------------------------------------------------------------------

/// Which request is outstanding. Each number is a position in a list.
#[derive(Debug, Clone, Copy, PartialEq, Eq, Structural)]
pub enum Phase {
    /// Allocating the scratch page.
    Mapping,
    /// Staging the pty path.
    StagingPath,
    /// Staging the sigaction.
    StagingAction,
    /// Ignoring SIGHUP.
    Ignoring,
    /// Dropping the old controlling terminal.
    Dropping,
    /// Forking the dummy.
    Forking,
    /// Taking control of the dummy.
    Adopting,
    /// Making the dummy a group leader.
    Leading,
    /// Listing the target's process group.
    Listing,
    /// Moving the target's process group under the dummy's group.
    Moving(usize),
    /// Making a fresh session.
    Leaving,
    /// Killing the dummy.
    Killing,
    /// Letting the dummy go.
    Parting,
    /// Waiting for the dummy.
    Reaping,
    /// Reaping the dummy inside the target.
    Collecting,
    /// The session move failed: killing the dummy.
    RetireKilling,
    /// The session move failed: letting the dummy go.
    RetireParting,
    /// The session move failed: waiting for the dummy.
    RetireReaping,
    /// Opening the new pty slave.
    Opening,
    /// Making it the controlling terminal.
    Controlling,
    /// Redirecting the selected fds.
    Dupping(usize),
    /// Dropping the extra reference.
    Closing,
    /// Releasing the scratch page.
    Unmapping,
    /// Nothing is outstanding.
    Over,
}

/// A plan that is being executed.
pub struct Injection {
    /// The target. Where it leads its process group, that is its number.
    pid: i32,
    plan: Plan,
    scratch: u64,
    tty_fd: i64,
    dummy: i32,
    group: Vec<i32>,
    /// Why the plan fails, once it does.
    trouble: Option<Error>,
    phase: Phase,
}

#[verifier::ext_equal]
pub struct InjectionView {
    pub pid: i32,
    pub plan: PlanView,
    pub scratch: u64,
    pub tty_fd: i64,
    pub dummy: i32,
    pub group: Seq<i32>,
    pub trouble: Option<ErrorView>,
    pub phase: Phase,
}

impl InjectionView {
    pub open spec fn wf(self) -> bool {
        &&& self.plan.wf()
        &&& self.scratch <= i64::MAX
        &&& match self.phase {
            Phase::Moving(i) => i < self.group.len(),
            Phase::Dupping(i) => i < self.plan.fds.len(),
            _ => true,
        }
    }
}

impl View for Injection {
    type V = InjectionView;

    closed spec fn view(&self) -> InjectionView {
        InjectionView {
            pid: self.pid,
            plan: self.plan@,
            scratch: self.scratch,
            tty_fd: self.tty_fd,
            dummy: self.dummy,
            group: self.group@,
            trouble: match self.trouble {
                Some(e) => Some(e@),
                None => None,
            },
            phase: self.phase,
        }
    }
}

pub type Transition = (InjectionView, StepView<()>);

pub open spec fn ask(s: InjectionView, phase: Phase, request: RequestView) -> Transition {
    (InjectionView { phase, ..s }, StepView::Do(request))
}

/// Run a syscall in the target.
pub open spec fn call(s: InjectionView, phase: Phase, nr: u64, args: Seq<u64>) -> Transition {
    ask(s, phase, RequestView::Call { nr, args })
}

/// Release the scratch page, which ends the plan.
pub open spec fn unmap(n: Syscalls, s: InjectionView) -> Transition {
    ask(s, Phase::Unmapping, munmap_call(n, s.scratch))
}

/// Give up; the scratch page is released even so.
pub open spec fn fail(n: Syscalls, s: InjectionView, e: ErrorView) -> Transition {
    unmap(n, InjectionView { trouble: Some(e), ..s })
}

/// Give up on the session move, and retire the dummy.
pub open spec fn retire(n: Syscalls, s: InjectionView, e: ErrorView) -> Transition {
    call(
        InjectionView { trouble: Some(e), ..s },
        Phase::RetireKilling,
        n.kill,
        seq![s.dummy as u64, SIGKILL as u64, 0, 0, 0, 0],
    )
}

/// Get into a session without a controlling terminal: a session leader
/// just drops its old one, anything else starts the dance.
pub open spec fn move_session(n: Syscalls, s: InjectionView) -> Transition {
    if s.plan.is_session_leader {
        call(
            s,
            Phase::Dropping,
            n.ioctl,
            seq![s.plan.fds[0] as u64, TIOCNOTTY, 0, 0, 0, 0],
        )
    } else {
        ask(s, Phase::Forking, RequestView::Fork)
    }
}

/// Move the processes of the group from position `i` on under the dummy's
/// group, then leave for a fresh session.
pub open spec fn move_from(n: Syscalls, s: InjectionView, i: int) -> Transition {
    if i < s.group.len() {
        call(
            s,
            Phase::Moving(i as usize),
            n.setpgid,
            seq![s.group[i] as u64, s.dummy as u64, 0, 0, 0, 0],
        )
    } else {
        call(s, Phase::Leaving, n.setsid, seq![0, 0, 0, 0, 0, 0])
    }
}

/// Open the new pty slave.
pub open spec fn open_slave(n: Syscalls, s: InjectionView) -> Transition {
    call(
        s,
        Phase::Opening,
        n.openat,
        seq![
            AT_FDCWD as u64,
            (s.scratch + PATH_OFF) as u64,
            (O_RDWR + O_NOCTTY) as u64,
            0,
            0,
            0,
        ],
    )
}

/// Whether a plan redirects the fd `fd`.
pub open spec fn redirects(plan: PlanView, fd: i64) -> bool {
    exists|i: int| 0 <= i < plan.fds.len() && #[trigger] plan.fds[i] == fd
}

/// The first position from `i` on at which a plan selects another fd than
/// `fd`.
pub open spec fn position_from(plan: PlanView, fd: i64, i: int) -> int
    decreases plan.fds.len() - i,
{
    if i < plan.fds.len() && plan.fds[i] == fd {
        position_from(plan, fd, i + 1)
    } else {
        i
    }
}

/// Redirect the selected fds from position `i` on, then drop the extra
/// reference. A selected fd that was free may be the very one that the
/// slave was opened as: it is in place already, and is no extra reference.
pub open spec fn dup_from(n: Syscalls, s: InjectionView, i: int) -> Transition {
    let k = position_from(s.plan, s.tty_fd, i);
    if k < s.plan.fds.len() {
        call(
            s,
            Phase::Dupping(k as usize),
            n.dup,
            seq![s.tty_fd as u64, s.plan.fds[k] as u64, 0, 0, 0, 0],
        )
    } else if redirects(s.plan, s.tty_fd) {
        unmap(n, s)
    } else {
        call(s, Phase::Closing, n.close, seq![s.tty_fd as u64, 0, 0, 0, 0, 0])
    }
}

/// What a syscall of the target returned.
pub open spec fn on_value(n: Syscalls, s: InjectionView, value: i64) -> Transition {
    match s.phase {
        Phase::Mapping => if value < 0 {
            (
                InjectionView { phase: Phase::Over, ..s },
                StepView::Finish(Err(remote::failed("remote mmap"@, value))),
            )
        } else {
            ask(
                InjectionView { scratch: value as u64, ..s },
                Phase::StagingPath,
                RequestView::Write {
                    addr: (value + PATH_OFF) as u64,
                    data: bytes::c_bytes(s.plan.slave_path),
                },
            )
        },
        Phase::Ignoring => if value < 0 {
            fail(n, s, sigaction_failed(value))
        } else {
            move_session(n, s)
        },
        Phase::Leading => if value < 0 {
            retire(n, s, remote::failed("remote setpgid on dummy"@, value))
        } else {
            ask(s, Phase::Listing, RequestView::ListGroup { pgrp: s.pid })
        },
        // A process that cannot be moved is left where it is.
        Phase::Moving(i) => move_from(n, s, i + 1),
        Phase::Leaving => if value < 0 {
            retire(n, s, remote::failed("remote setsid"@, value))
        } else {
            call(
                s,
                Phase::Killing,
                n.kill,
                seq![s.dummy as u64, SIGKILL as u64, 0, 0, 0, 0],
            )
        },
        Phase::Killing => ask(s, Phase::Parting, RequestView::Detach { tid: s.dummy }),
        Phase::Collecting => open_slave(n, s),
        Phase::Opening => if value < 0 {
            fail(
                n,
                s,
                remote::failed("remote openat("@ + s.plan.slave_path + ")"@, value),
            )
        } else {
            call(
                InjectionView { tty_fd: value, ..s },
                Phase::Controlling,
                n.ioctl,
                seq![value as u64, TIOCSCTTY, 1, 0, 0, 0],
            )
        },
        Phase::Controlling => if value < 0 {
            fail(n, s, remote::failed("remote TIOCSCTTY"@, value))
        } else {
            dup_from(n, s, 0)
        },
        Phase::Dupping(i) => if value < 0 {
            fail(
                n,
                s,
                remote::failed(
                    "remote dup to fd "@ + text::signed_decimal(s.plan.fds[i as int] as int),
                    value,
                ),
            )
        } else {
            dup_from(n, s, i + 1)
        },
        _ => arbitrary(),
    }
}

/// What the plan does with an answer.
pub open spec fn next(n: Syscalls, s: InjectionView, answer: AnswerView) -> Transition {
    match (s.phase, answer) {
        // These are best effort.
        (Phase::Dropping, _) => open_slave(n, s),
        (Phase::Parting, _) => ask(s, Phase::Reaping, RequestView::Reap { tid: s.dummy }),
        (Phase::Reaping, _) => call(
            s,
            Phase::Collecting,
            n.wait4,
            seq![s.dummy as u64, 0, WNOHANG as u64, 0, 0, 0],
        ),
        (Phase::RetireKilling, _) => ask(
            s,
            Phase::RetireParting,
            RequestView::Detach { tid: s.dummy },
        ),
        (Phase::RetireParting, _) => ask(
            s,
            Phase::RetireReaping,
            RequestView::Reap { tid: s.dummy },
        ),
        (Phase::RetireReaping, _) => unmap(n, s),
        (Phase::Closing, _) => unmap(n, s),
        (Phase::Unmapping, _) => (
            InjectionView { phase: Phase::Over, trouble: None, ..s },
            StepView::Finish(
                match s.trouble {
                    Some(e) => Err(e),
                    None => Ok(()),
                },
            ),
        ),
        // Without a scratch page there is nothing to release.
        (Phase::Mapping, AnswerView::Failed(e)) => (
            InjectionView { phase: Phase::Over, ..s },
            StepView::Finish(Err(e)),
        ),
        (_, AnswerView::Failed(e)) => fail(n, s, e),
        (_, AnswerView::Value(value)) => on_value(n, s, value),
        (Phase::StagingPath, _) => ask(s, Phase::StagingAction, stage_action(s.scratch)),
        (Phase::StagingAction, _) => ask(s, Phase::Ignoring, sigaction_call(n, s.scratch)),
        (Phase::Forking, AnswerView::Number(child)) => ask(
            InjectionView { dummy: child, ..s },
            Phase::Adopting,
            RequestView::Adopt { child },
        ),
        (Phase::Adopting, _) => ask(
            s,
            Phase::Leading,
            RequestView::CallChild { nr: n.setpgid, args: seq![0, 0, 0, 0, 0, 0] },
        ),
        (Phase::Listing, AnswerView::Numbers(pids)) => move_from(
            n,
            InjectionView { group: pids, ..s },
            0,
        ),
        _ => arbitrary(),
    }
}

/// Whether `answer` can be the answer that the plan is waiting for.
pub open spec fn expects(s: InjectionView, answer: AnswerView) -> bool {
    match s.phase {
        Phase::Over => false,
        Phase::StagingPath
        | Phase::StagingAction
        | Phase::Adopting
        | Phase::Parting
        | Phase::Reaping
        | Phase::RetireParting
        | Phase::RetireReaping => answer is Done || answer is Failed,
        Phase::Forking => answer is Number || answer is Failed,
        Phase::Listing => answer is Numbers || answer is Failed,
        _ => {
            ||| answer is Failed
            ||| answer matches AnswerView::Value(value) && value > i64::MIN
        },
    }
}

/// Execute `plan` in a hijacked thread of the process `pid`.
pub fn execute<A: Arch>(a: &A, pid: i32, plan: Plan) -> (r: (Injection, Step<()>))
    requires
        plan@.wf(),
    ensures
        r.0@ == (InjectionView {
            pid,
            plan: plan@,
            scratch: 0,
            tty_fd: 0,
            dummy: 0,
            group: Seq::empty(),
            trouble: None,
            phase: Phase::Mapping,
        }),
        r.0@ == begun(pid, plan@),
        r.0@.wf(),
        r.1@ == StepView::<()>::Do(mmap_call(A::numbers())),
{
    (
        Injection {
            pid,
            plan,
            scratch: 0,
            tty_fd: 0,
            dummy: 0,
            group: Vec::new(),
            trouble: None,
            phase: Phase::Mapping,
        },
        Step::Do(request_mmap(a)),
    )
}

impl Injection {
    fn ask(&mut self, phase: Phase, request: Request) -> (r: Step<()>)
        ensures
            final(self)@ == ask(old(self)@, phase, request@).0,
            r@ == ask(old(self)@, phase, request@).1,
    {
        self.phase = phase;
        Step::Do(request)
    }

    fn call(&mut self, phase: Phase, nr: u64, args: [u64; 6]) -> (r: Step<()>)
        ensures
            final(self)@ == call(old(self)@, phase, nr, args@).0,
            r@ == call(old(self)@, phase, nr, args@).1,
    {
        self.ask(phase, Request::Call { nr, args })
    }

    fn unmap<A: Arch>(&mut self, a: &A) -> (r: Step<()>)
        ensures
            final(self)@ == unmap(A::numbers(), old(self)@).0,
            r@ == unmap(A::numbers(), old(self)@).1,
    {
        let request: Request = munmap_scratch(a, self.scratch);
        self.ask(Phase::Unmapping, request)
    }

    fn fail<A: Arch>(&mut self, a: &A, e: Error) -> (r: Step<()>)
        ensures
            final(self)@ == fail(A::numbers(), old(self)@, e@).0,
            r@ == fail(A::numbers(), old(self)@, e@).1,
    {
        self.trouble = Some(e);
        self.unmap(a)
    }

    fn retire<A: Arch>(&mut self, a: &A, e: Error) -> (r: Step<()>)
        ensures
            final(self)@ == retire(A::numbers(), old(self)@, e@).0,
            r@ == retire(A::numbers(), old(self)@, e@).1,
    {
        self.trouble = Some(e);
        let dummy: i32 = self.dummy;
        self.call(
            Phase::RetireKilling,
            a.nr_kill(),
            [dummy as u64, SIGKILL as u64, 0, 0, 0, 0],
        )
    }

    fn move_session<A: Arch>(&mut self, a: &A) -> (r: Step<()>)
        requires
            old(self)@.plan.wf(),
        ensures
            final(self)@ == move_session(A::numbers(), old(self)@).0,
            r@ == move_session(A::numbers(), old(self)@).1,
    {
        if self.plan.is_session_leader {
            let fd: i32 = self.plan.fds[0];
            self.call(Phase::Dropping, a.nr_ioctl(), [fd as u64, TIOCNOTTY, 0, 0, 0, 0])
        } else {
            self.ask(Phase::Forking, Request::Fork)
        }
    }

    fn move_from<A: Arch>(&mut self, a: &A, i: usize) -> (r: Step<()>)
        requires
            old(self)@.plan.wf(),
            old(self)@.scratch <= i64::MAX,
        ensures
            final(self)@ == move_from(A::numbers(), old(self)@, i as int).0,
            r@ == move_from(A::numbers(), old(self)@, i as int).1,
            final(self)@.wf(),
    {
        if i < self.group.len() {
            let pid: i32 = self.group[i];
            let dummy: i32 = self.dummy;
            self.call(
                Phase::Moving(i),
                a.nr_setpgid(),
                [pid as u64, dummy as u64, 0, 0, 0, 0],
            )
        } else {
            self.call(Phase::Leaving, a.nr_setsid(), [0, 0, 0, 0, 0, 0])
        }
    }

    fn open_slave<A: Arch>(&mut self, a: &A) -> (r: Step<()>)
        requires
            old(self)@.scratch <= i64::MAX,
        ensures
            final(self)@ == open_slave(A::numbers(), old(self)@).0,
            r@ == open_slave(A::numbers(), old(self)@).1,
    {
        let path: u64 = self.scratch + PATH_OFF;
        self.call(
            Phase::Opening,
            a.nr_openat(),
            [AT_FDCWD as u64, path, (O_RDWR + O_NOCTTY) as u64, 0, 0, 0],
        )
    }

    fn dup_from<A: Arch>(&mut self, a: &A, i: usize) -> (r: Step<()>)
        requires
            old(self)@.plan.wf(),
            old(self)@.scratch <= i64::MAX,
        ensures
            final(self)@ == dup_from(A::numbers(), old(self)@, i as int).0,
            r@ == dup_from(A::numbers(), old(self)@, i as int).1,
            final(self)@.wf(),
    {
        let tty_fd: i64 = self.tty_fd;
        let mut k: usize = i;
        while k < self.plan.fds.len() && self.plan.fds[k] as i64 == tty_fd
            invariant
                *self == *old(self),
                tty_fd == self@.tty_fd,
                position_from(self@.plan, tty_fd, k as int) == position_from(
                    self@.plan,
                    tty_fd,
                    i as int,
                ),
            decreases self.plan.fds@.len() - k,
        {
            k = k + 1;
        }
        if k < self.plan.fds.len() {
            let fd: i32 = self.plan.fds[k];
            let (nr, args): (u64, [u64; 6]) = a.dup_syscall(tty_fd as u64, fd as u64);
            self.call(Phase::Dupping(k), nr, args)
        } else if self.keeps(tty_fd) {
            self.unmap(a)
        } else {
            self.call(Phase::Closing, a.nr_close(), [tty_fd as u64, 0, 0, 0, 0, 0])
        }
    }

    fn keeps(&self, fd: i64) -> (r: bool)
        ensures
            r == redirects(self@.plan, fd),
    {
        let mut i: usize = 0;
        while i < self.plan.fds.len()
            invariant
                i <= self.plan.fds@.len(),
                forall|j: int| 0 <= j < i ==> self.plan.fds@[j] != fd,
            decreases self.plan.fds@.len() - i,
        {
            if self.plan.fds[i] as i64 == fd {
                assert(self@.plan.fds[i as int] == fd);
                return true;
            }
            i = i + 1;
        }
        false
    }

    fn on_value<A: Arch>(&mut self, a: &A, value: i64) -> (r: Step<()>)
        requires
            old(self)@.wf(),
            value > i64::MIN,
            expects(old(self)@, AnswerView::Value(value)),
            !(old(self)@.phase is Dropping || old(self)@.phase is RetireKilling || old(
                self,
            )@.phase is Closing || old(self)@.phase is Unmapping),
        ensures
            final(self)@ == on_value(A::numbers(), old(self)@, value).0,
            r@ == on_value(A::numbers(), old(self)@, value).1,
            final(self)@.wf(),
    {
        let dummy: i32 = self.dummy;
        match self.phase {
            Phase::Mapping => match mmap_scratch(value) {
                Ok(scratch) => {
                    self.scratch = scratch;
                    let data: Vec<u8> = c_string(self.plan.slave_path.as_str());
                    self.ask(
                        Phase::StagingPath,
                        Request::Write { addr: scratch + PATH_OFF, data },
                    )
                },
                Err(e) => {
                    self.phase = Phase::Over;
                    Step::Finish(Err(e))
                },
            },
            Phase::Ignoring => if value < 0 {
                self.fail(a, sigaction_failure(value))
            } else {
                self.move_session(a)
            },
            Phase::Leading => if value < 0 {
                self.retire(a, remote::failure("remote setpgid on dummy", value))
            } else {
                let pgrp: i32 = self.pid;
                self.ask(Phase::Listing, Request::ListGroup { pgrp })
            },
            Phase::Moving(i) => {
                assert(i < self.group.len());
                self.move_from(a, i + 1)
            },
            Phase::Leaving => if value < 0 {
                self.retire(a, remote::failure("remote setsid", value))
            } else {
                self.call(
                    Phase::Killing,
                    a.nr_kill(),
                    [dummy as u64, SIGKILL as u64, 0, 0, 0, 0],
                )
            },
            Phase::Killing => self.ask(Phase::Parting, Request::Detach { tid: dummy }),
            Phase::Collecting => self.open_slave(a),
            Phase::Opening => if value < 0 {
                let mut what: String = copy_text("remote openat(");
                what.append(self.plan.slave_path.as_str());
                what.append(")");
                self.fail(a, remote::failure(what.as_str(), value))
            } else {
                self.tty_fd = value;
                // The pty is freshly allocated, so no other session owns
                // it and this cannot fail on privileges.
                self.call(
                    Phase::Controlling,
                    a.nr_ioctl(),
                    [value as u64, TIOCSCTTY, 1, 0, 0, 0],
                )
            },
            Phase::Controlling => if value < 0 {
                self.fail(a, remote::failure("remote TIOCSCTTY", value))
            } else {
                self.dup_from(a, 0)
            },
            Phase::Dupping(i) => if value < 0 {
                let mut what: String = copy_text("remote dup to fd ");
                push_signed(&mut what, self.plan.fds[i] as i64);
                self.fail(a, remote::failure(what.as_str(), value))
            } else {
                assert(i < self.plan.fds.len());
                self.dup_from(a, i + 1)
            },
            // No other answer is expected.
            _ => Step::Finish(Err(Error::Os(0))),
        }
    }

    /// Go on with the plan, now that its request was answered.
    pub fn step<A: Arch>(&mut self, a: &A, answer: Answer) -> (r: Step<()>)
        requires
            old(self)@.wf(),
            expects(old(self)@, answer@),
        ensures
            final(self)@ == next(A::numbers(), old(self)@, answer@).0,
            r@ == next(A::numbers(), old(self)@, answer@).1,
            final(self)@.wf(),
    {
        let dummy: i32 = self.dummy;
        match (self.phase, answer) {
            (Phase::Dropping, _) => self.open_slave(a),
            (Phase::Parting, _) => self.ask(Phase::Reaping, Request::Reap { tid: dummy }),
            (Phase::Reaping, _) => self.call(
                Phase::Collecting,
                a.nr_wait4(),
                [dummy as u64, 0, WNOHANG as u64, 0, 0, 0],
            ),
            (Phase::RetireKilling, _) => self.ask(
                Phase::RetireParting,
                Request::Detach { tid: dummy },
            ),
            (Phase::RetireParting, _) => self.ask(
                Phase::RetireReaping,
                Request::Reap { tid: dummy },
            ),
            (Phase::RetireReaping, _) => self.unmap(a),
            (Phase::Closing, _) => self.unmap(a),
            (Phase::Unmapping, _) => {
                self.phase = Phase::Over;
                match self.trouble.take() {
                    Some(e) => Step::Finish(Err(e)),
                    None => Step::Finish(Ok(())),
                }
            },
            (Phase::Mapping, Answer::Failed(e)) => {
                self.phase = Phase::Over;
                Step::Finish(Err(e))
            },
            (_, Answer::Failed(e)) => self.fail(a, e),
            (_, Answer::Value(value)) => self.on_value(a, value),
            (Phase::StagingPath, _) => {
                let addr: u64 = self.scratch + ACT_OFF;
                self.ask(Phase::StagingAction, Request::Write { addr, data: sigign_bytes() })
            },
            (Phase::StagingAction, _) => {
                let request: Request = request_sigaction(a, self.scratch);
                self.ask(Phase::Ignoring, request)
            },
            (Phase::Forking, Answer::Number(child)) => {
                self.dummy = child;
                self.ask(Phase::Adopting, Request::Adopt { child })
            },
            (Phase::Adopting, _) => self.ask(
                Phase::Leading,
                Request::CallChild { nr: a.nr_setpgid(), args: [0, 0, 0, 0, 0, 0] },
            ),
            (Phase::Listing, Answer::Numbers(pids)) => {
                self.group = pids;
                self.move_from(a, 0)
            },
            // No other answer is expected.
            _ => Step::Finish(Err(Error::Os(0))),
        }
    }
}

// ---------------------------------------------------------------------
// Laws
// ---------------------------------------------------------------------

/// Requests with their answers, in the order in which they were made.
pub type Log = Seq<(RequestView, AnswerView)>;

/// The plan and its step after the answers `answers`.
pub open spec fn after(n: Syscalls, s: InjectionView, step: StepView<()>, answers: Seq<AnswerView>) -> Transition
    decreases answers.len(),
{
    if answers.len() == 0 {
        (s, step)
    } else {
        next(n, after(n, s, step, answers.drop_last()).0, answers.last())
    }
}

/// Whether each of `answers` can be the answer that the plan is waiting for
/// when it comes.
pub open spec fn accepts(
    n: Syscalls,
    s: InjectionView,
    step: StepView<()>,
    answers: Seq<AnswerView>,
) -> bool
    decreases answers.len(),
{
    answers.len() > 0 ==> {
        &&& accepts(n, s, step, answers.drop_last())
        &&& expects(after(n, s, step, answers.drop_last()).0, answers.last())
    }
}

/// The requests that were answered by `answers`, with their answers.
pub open spec fn log(n: Syscalls, s: InjectionView, step: StepView<()>, answers: Seq<AnswerView>) -> Log
    decreases answers.len(),
{
    if answers.len() == 0 {
        Seq::empty()
    } else {
        log(n, s, step, answers.drop_last()).push(
            (after(n, s, step, answers.drop_last()).1->Do_0, answers.last()),
        )
    }
}

/// The requests of a log.
pub open spec fn requests(log: Log) -> Seq<RequestView> {
    log.map_values(|entry: (RequestView, AnswerView)| entry.0)
}

/// What comes before the session move: the scratch page, the pty path and
/// the sigaction in it, and SIGHUP ignored.
pub open spec fn opening(n: Syscalls, s: InjectionView) -> Seq<RequestView> {
    seq![
        mmap_call(n),
        RequestView::Write {
            addr: (s.scratch + PATH_OFF) as u64,
            data: bytes::c_bytes(s.plan.slave_path),
        },
        stage_action(s.scratch),
        sigaction_call(n, s.scratch),
    ]
}

/// Moving the target's process group under the dummy's.
pub open spec fn moves(n: Syscalls, s: InjectionView) -> Seq<RequestView> {
    Seq::new(
        s.group.len(),
        |i: int|
            RequestView::Call {
                nr: n.setpgid,
                args: seq![s.group[i] as u64, s.dummy as u64, 0, 0, 0, 0],
            },
    )
}

/// Making a dummy child that leads a group of its own.
pub open spec fn dance_in(n: Syscalls, s: InjectionView) -> Seq<RequestView> {
    seq![
        RequestView::Fork,
        RequestView::Adopt { child: s.dummy },
        RequestView::CallChild { nr: n.setpgid, args: seq![0, 0, 0, 0, 0, 0] },
        RequestView::ListGroup { pgrp: s.pid },
    ]
}

/// Leaving for a fresh session, and retiring the dummy.
pub open spec fn dance_out(n: Syscalls, s: InjectionView) -> Seq<RequestView> {
    seq![
        RequestView::Call { nr: n.setsid, args: seq![0, 0, 0, 0, 0, 0] },
        RequestView::Call {
            nr: n.kill,
            args: seq![s.dummy as u64, SIGKILL as u64, 0, 0, 0, 0],
        },
        RequestView::Detach { tid: s.dummy },
        RequestView::Reap { tid: s.dummy },
        RequestView::Call {
            nr: n.wait4,
            args: seq![s.dummy as u64, 0, WNOHANG as u64, 0, 0, 0],
        },
    ]
}

/// The session move.
pub open spec fn session_move(n: Syscalls, s: InjectionView) -> Seq<RequestView> {
    if s.plan.is_session_leader {
        seq![
            RequestView::Call {
                nr: n.ioctl,
                args: seq![s.plan.fds[0] as u64, TIOCNOTTY, 0, 0, 0, 0],
            },
        ]
    } else {
        dance_in(n, s) + moves(n, s) + dance_out(n, s)
    }
}

/// Opening the new pty slave and making it the controlling terminal.
pub open spec fn acquire(n: Syscalls, s: InjectionView) -> Seq<RequestView> {
    seq![
        RequestView::Call {
            nr: n.openat,
            args: seq![
                AT_FDCWD as u64,
                (s.scratch + PATH_OFF) as u64,
                (O_RDWR + O_NOCTTY) as u64,
                0,
                0,
                0,
            ],
        },
        RequestView::Call { nr: n.ioctl, args: seq![s.tty_fd as u64, TIOCSCTTY, 1, 0, 0, 0] },
    ]
}

/// Redirecting the first `k` of the selected fds, but for the one that the
/// slave was opened as.
pub open spec fn dups(n: Syscalls, s: InjectionView, k: int) -> Seq<RequestView>
    decreases k,
{
    if k <= 0 {
        Seq::empty()
    } else if s.plan.fds[k - 1] == s.tty_fd {
        dups(n, s, k - 1)
    } else {
        dups(n, s, k - 1).push(
            RequestView::Call {
                nr: n.dup,
                args: seq![s.tty_fd as u64, s.plan.fds[k - 1] as u64, 0, 0, 0, 0],
            },
        )
    }
}

/// Redirecting the selected fds, and dropping the extra reference, where
/// there is one.
pub open spec fn redirection(n: Syscalls, s: InjectionView) -> Seq<RequestView> {
    let all = dups(n, s, s.plan.fds.len() as int);
    if redirects(s.plan, s.tty_fd) {
        all
    } else {
        all.push(
            RequestView::Call { nr: n.close, args: seq![s.tty_fd as u64, 0, 0, 0, 0, 0] },
        )
    }
}

/// Every request of a plan that succeeds, in order.
pub open spec fn script(n: Syscalls, s: InjectionView) -> Seq<RequestView> {
    opening(n, s) + session_move(n, s) + acquire(n, s) + redirection(n, s) + seq![
        munmap_call(n, s.scratch),
    ]
}

/// What a plan goes on after: an answer that is not negative and no
/// failure, but for the requests that are best effort.
pub open spec fn tolerates(n: Syscalls, request: RequestView, answer: AnswerView) -> bool {
    match answer {
        AnswerView::Value(value) if value < 0 => request matches RequestView::Call { nr, args } && {
            ||| nr == n.ioctl && args[1] == TIOCNOTTY
            ||| nr == n.setpgid
            ||| nr == n.kill
            ||| nr == n.wait4
            ||| nr == n.close
            ||| nr == n.munmap
        },
        AnswerView::Failed(_) => match request {
            RequestView::Detach { .. } | RequestView::Reap { .. } => true,
            RequestView::Call { nr, args } => {
                ||| nr == n.ioctl && args[1] == TIOCNOTTY
                ||| nr == n.close
                ||| nr == n.munmap
            },
            _ => false,
        },
        _ => true,
    }
}

/// The requests that precede the outstanding one, as long as nothing went
/// wrong.
spec fn trail(n: Syscalls, s: InjectionView) -> Seq<RequestView> {
    let front = opening(n, s);
    let joined = front + session_move(n, s);
    match s.phase {
        Phase::Mapping => Seq::empty(),
        Phase::StagingPath => front.take(1),
        Phase::StagingAction => front.take(2),
        Phase::Ignoring => front.take(3),
        Phase::Dropping | Phase::Forking => front,
        Phase::Adopting => front + dance_in(n, s).take(1),
        Phase::Leading => front + dance_in(n, s).take(2),
        Phase::Listing => front + dance_in(n, s).take(3),
        Phase::Moving(i) => front + dance_in(n, s) + moves(n, s).take(i as int),
        Phase::Leaving => front + dance_in(n, s) + moves(n, s),
        Phase::Killing => front + dance_in(n, s) + moves(n, s) + dance_out(n, s).take(1),
        Phase::Parting => front + dance_in(n, s) + moves(n, s) + dance_out(n, s).take(2),
        Phase::Reaping => front + dance_in(n, s) + moves(n, s) + dance_out(n, s).take(3),
        Phase::Collecting => front + dance_in(n, s) + moves(n, s) + dance_out(n, s).take(4),
        Phase::Opening => joined,
        Phase::Controlling => joined + acquire(n, s).take(1),
        Phase::Dupping(i) => joined + acquire(n, s) + dups(n, s, i as int),
        Phase::Closing => joined + acquire(n, s) + dups(n, s, s.plan.fds.len() as int),
        Phase::Unmapping => joined + acquire(n, s) + redirection(n, s),
        Phase::Over => script(n, s),
        _ => arbitrary(),
    }
}

/// The outstanding request.
spec fn current(n: Syscalls, s: InjectionView) -> RequestView {
    match s.phase {
        Phase::Mapping => opening(n, s)[0],
        Phase::StagingPath => opening(n, s)[1],
        Phase::StagingAction => opening(n, s)[2],
        Phase::Ignoring => opening(n, s)[3],
        Phase::Dropping => session_move(n, s)[0],
        Phase::Forking => dance_in(n, s)[0],
        Phase::Adopting => dance_in(n, s)[1],
        Phase::Leading => dance_in(n, s)[2],
        Phase::Listing => dance_in(n, s)[3],
        Phase::Moving(i) => moves(n, s)[i as int],
        Phase::Leaving => dance_out(n, s)[0],
        Phase::Killing => dance_out(n, s)[1],
        Phase::Parting => dance_out(n, s)[2],
        Phase::Reaping => dance_out(n, s)[3],
        Phase::Collecting => dance_out(n, s)[4],
        Phase::Opening => acquire(n, s)[0],
        Phase::Controlling => acquire(n, s)[1],
        Phase::Dupping(i) => RequestView::Call {
            nr: n.dup,
            args: seq![s.tty_fd as u64, s.plan.fds[i as int] as u64, 0, 0, 0, 0],
        },
        Phase::Closing => RequestView::Call {
            nr: n.close,
            args: seq![s.tty_fd as u64, 0, 0, 0, 0, 0],
        },
        Phase::Unmapping => munmap_call(n, s.scratch),
        _ => arbitrary(),
    }
}

spec fn dancing(s: InjectionView) -> bool {
    match s.phase {
        Phase::Forking
        | Phase::Adopting
        | Phase::Leading
        | Phase::Listing
        | Phase::Moving(_)
        | Phase::Leaving
        | Phase::Killing
        | Phase::Parting
        | Phase::Reaping
        | Phase::Collecting => true,
        _ => false,
    }
}

/// How the plan stands to the log of what it asked for.
spec fn on_script(n: Syscalls, s: InjectionView, step: StepView<()>, log: Log) -> bool {
    &&& in_shape(n, s, step, log)
    &&& s.trouble is None && (s.phase is Over ==> step == StepView::<()>::Finish(Ok(()))) ==> {
        &&& requests(log) == trail(n, s)
        &&& forall|k: int| 0 <= k < log.len() ==> tolerates(n, #[trigger] log[k].0, log[k].1)
    }
}

/// Where a plan goes from its opening.
spec fn in_opening(s: InjectionView) -> bool {
    s.phase is Mapping || s.phase is StagingPath || s.phase is StagingAction || s.phase is Ignoring
        || s.phase is Dropping
}

/// Where a plan makes the dummy and moves the process group.
spec fn in_dance_in(s: InjectionView) -> bool {
    s.phase is Forking || s.phase is Adopting || s.phase is Leading || s.phase is Listing
        || s.phase is Moving
}

/// Where a plan leaves for a fresh session.
spec fn in_dance_out(s: InjectionView) -> bool {
    s.phase is Leaving || s.phase is Killing || s.phase is Parting || s.phase is Reaping
        || s.phase is Collecting
}

/// Where a plan takes the new terminal.
spec fn in_acquire(s: InjectionView) -> bool {
    s.phase is Opening || s.phase is Controlling || s.phase is Dupping || s.phase is Closing
        || s.phase is Unmapping
}

/// Nothing went wrong before the answer, nor by it.
spec fn untroubled(n: Syscalls, s: InjectionView, answer: AnswerView) -> bool {
    let (s2, step2) = next(n, s, answer);
    &&& s.wf() && expects(s, answer)
    &&& s.trouble is None && s2.trouble is None
    &&& !(step2 matches StepView::Finish(Err(_)))
    &&& dancing(s) ==> !s.plan.is_session_leader
    &&& s.phase is Dropping ==> s.plan.is_session_leader
    &&& s.phase matches Phase::Dupping(i) ==> s.plan.fds[i as int] != s.tty_fd
    &&& s.phase is Closing ==> !redirects(s.plan, s.tty_fd)
    &&& s.group.len() <= usize::MAX && s.plan.fds.len() <= usize::MAX
    &&& answer matches AnswerView::Numbers(pids) ==> pids.len() <= usize::MAX
}

#[verifier::spinoff_prover]
proof fn lemma_trail_opening(n: Syscalls, s: InjectionView, answer: AnswerView)
    requires
        untroubled(n, s, answer),
        in_opening(s),
    ensures
        trail(n, next(n, s, answer).0) == trail(n, s).push(current(n, s)),
        tolerates(n, current(n, s), answer),
{
    let s2 = next(n, s, answer).0;
    assert(trail(n, s2) =~= trail(n, s).push(current(n, s)));
}

#[verifier::spinoff_prover]
proof fn lemma_trail_dance_in(n: Syscalls, s: InjectionView, answer: AnswerView)
    requires
        untroubled(n, s, answer),
        in_dance_in(s),
    ensures
        trail(n, next(n, s, answer).0) == trail(n, s).push(current(n, s)),
        tolerates(n, current(n, s), answer),
{
    let s2 = next(n, s, answer).0;
    assert(trail(n, s2) =~= trail(n, s).push(current(n, s)));
}

#[verifier::spinoff_prover]
proof fn lemma_trail_dance_out(n: Syscalls, s: InjectionView, answer: AnswerView)
    requires
        untroubled(n, s, answer),
        in_dance_out(s),
    ensures
        trail(n, next(n, s, answer).0) == trail(n, s).push(current(n, s)),
        tolerates(n, current(n, s), answer),
{
    let s2 = next(n, s, answer).0;
    assert(trail(n, s2) =~= trail(n, s).push(current(n, s)));
}

#[verifier::spinoff_prover]
proof fn lemma_trail_acquire(n: Syscalls, s: InjectionView, answer: AnswerView)
    requires
        untroubled(n, s, answer),
        in_acquire(s),
    ensures
        trail(n, next(n, s, answer).0) == trail(n, s).push(current(n, s)),
        tolerates(n, current(n, s), answer),
{
    let s2 = next(n, s, answer).0;
    assert(session_move(n, s2) == session_move(n, s));
    assert(opening(n, s2) == opening(n, s));
    match s.phase {
        Phase::Controlling => {
            let k = position_from(s.plan, s.tty_fd, 0);
            lemma_position(n, s, 0);
            lemma_dups_same(n, s, s2, k);
        },
        Phase::Dupping(i) => {
            let k = position_from(s.plan, s.tty_fd, i + 1);
            lemma_position(n, s, i + 1);
            lemma_dups_same(n, s, s2, k);
            lemma_dups_same(n, s, s2, i + 1);
        },
        Phase::Closing => {
            lemma_dups_same(n, s, s2, s.plan.fds.len() as int);
        },
        Phase::Unmapping => {
            lemma_dups_same(n, s, s2, s.plan.fds.len() as int);
        },
        _ => {},
    }
    assert(trail(n, s2) =~= trail(n, s).push(current(n, s)));
}

/// Where the redirection goes from position `i`.
proof fn lemma_position(n: Syscalls, s: InjectionView, i: int)
    requires
        0 <= i <= s.plan.fds.len(),
    ensures
        ({
            let k = position_from(s.plan, s.tty_fd, i);
            &&& i <= k <= s.plan.fds.len()
            &&& k < s.plan.fds.len() ==> s.plan.fds[k] != s.tty_fd
            &&& dups(n, s, k) == dups(n, s, i)
            &&& forall|j: int| i <= j < k ==> #[trigger] s.plan.fds[j] == s.tty_fd
        }),
    decreases s.plan.fds.len() - i,
{
    if i < s.plan.fds.len() && s.plan.fds[i] == s.tty_fd {
        lemma_position(n, s, i + 1);
    }
}

/// Only the plan and the slave's fd decide what is redirected how.
proof fn lemma_dups_same(n: Syscalls, s: InjectionView, t: InjectionView, k: int)
    requires
        s.plan == t.plan,
        s.tty_fd == t.tty_fd,
    ensures
        dups(n, t, k) == dups(n, s, k),
    decreases k,
{
    if k > 0 {
        lemma_dups_same(n, s, t, k - 1);
    }
}

#[verifier::spinoff_prover]
proof fn lemma_on_script_step(
    n: Syscalls,
    s: InjectionView,
    step: StepView<()>,
    answer: AnswerView,
    before: Log,
)
    requires
        on_script(n, s, step, before),
        expects(s, answer),
        s.group.len() <= usize::MAX,
        s.plan.fds.len() <= usize::MAX,
        answer matches AnswerView::Numbers(pids) ==> pids.len() <= usize::MAX,
    ensures
        ({
            let (s2, step2) = next(n, s, answer);
            on_script(n, s2, step2, before.push((step->Do_0, answer)))
        }),
{
    let (s2, step2) = next(n, s, answer);
    let entry = (step->Do_0, answer);
    let log = before.push(entry);
    assert(requests(log) =~= requests(before).push(entry.0));
    if s.trouble is None && s2.trouble is None && !(step2 matches StepView::Finish(Err(_))) {
        assert(entry.0 == current(n, s));
        if in_opening(s) {
            lemma_trail_opening(n, s, answer);
        } else if in_dance_in(s) {
            lemma_trail_dance_in(n, s, answer);
        } else if in_dance_out(s) {
            lemma_trail_dance_out(n, s, answer);
        } else {
            lemma_trail_acquire(n, s, answer);
        }
    }
    lemma_on_script_rest(n, s, step, answer, before);
}

/// The parts of [`on_script`] that are not about what was asked for.
spec fn in_shape(n: Syscalls, s: InjectionView, step: StepView<()>, log: Log) -> bool {
    &&& s.wf()
    &&& match s.phase {
        Phase::Over => step is Finish,
        Phase::RetireKilling | Phase::RetireParting | Phase::RetireReaping => step is Do
            && s.trouble is Some,
        Phase::Unmapping => step == StepView::<()>::Do(munmap_call(n, s.scratch)),
        _ => s.trouble is None && step == StepView::<()>::Do(current(n, s)),
    }
    &&& dancing(s) ==> !s.plan.is_session_leader
    &&& s.phase is Dropping ==> s.plan.is_session_leader
    &&& s.phase matches Phase::Dupping(i) ==> s.plan.fds[i as int] != s.tty_fd
    &&& s.phase is Closing ==> !redirects(s.plan, s.tty_fd)
    &&& s.phase is Mapping <==> log.len() == 0
    &&& log.len() > 1 || (log.len() == 1 && step is Do) ==> {
        &&& log[0].1 matches AnswerView::Value(value)
        &&& value == s.scratch
    }
    &&& s.phase is Over ==> {
        ||| log.len() == 1 && step matches StepView::Finish(Err(_))
        ||| log.last().0 == munmap_call(n, s.scratch)
    }
}

#[verifier::spinoff_prover]
proof fn lemma_on_script_rest(
    n: Syscalls,
    s: InjectionView,
    step: StepView<()>,
    answer: AnswerView,
    before: Log,
)
    requires
        in_shape(n, s, step, before),
        expects(s, answer),
        s.group.len() <= usize::MAX,
        s.plan.fds.len() <= usize::MAX,
        answer matches AnswerView::Numbers(pids) ==> pids.len() <= usize::MAX,
    ensures
        ({
            let (s2, step2) = next(n, s, answer);
            in_shape(n, s2, step2, before.push((step->Do_0, answer)))
        }),
{
    if let Phase::Dupping(i) = s.phase {
        lemma_position(n, s, i + 1);
    }
    lemma_position(n, s, 0);
}

proof fn lemma_sizes(
    n: Syscalls,
    s: InjectionView,
    step: StepView<()>,
    answers: Seq<AnswerView>,
)
    requires
        s.group.len() <= usize::MAX,
        accepts(n, s, step, answers),
        forall|k: int|
            0 <= k < answers.len() ==> (#[trigger] answers[k] matches AnswerView::Numbers(pids)
                ==> pids.len() <= usize::MAX),
    ensures
        ({
            let t = after(n, s, step, answers).0;
            &&& t.group.len() <= usize::MAX
            &&& t.plan == s.plan
            &&& t.pid == s.pid
        }),
    decreases answers.len(),
{
    if answers.len() > 0 {
        let front = answers.drop_last();
        assert forall|k: int| 0 <= k < front.len() implies (
        #[trigger] front[k] matches AnswerView::Numbers(pids) ==> pids.len() <= usize::MAX) by {
            assert(front[k] == answers[k]);
        }
        lemma_sizes(n, s, step, front);
        assert(answers.last() == answers[answers.len() - 1]);
    }
}

proof fn lemma_on_script(
    n: Syscalls,
    s: InjectionView,
    step: StepView<()>,
    answers: Seq<AnswerView>,
)
    requires
        on_script(n, s, step, Seq::empty()),
        s.group.len() <= usize::MAX,
        s.plan.fds.len() <= usize::MAX,
        accepts(n, s, step, answers),
        forall|k: int|
            0 <= k < answers.len() ==> (#[trigger] answers[k] matches AnswerView::Numbers(pids)
                ==> pids.len() <= usize::MAX),
    ensures
        on_script(
            n,
            after(n, s, step, answers).0,
            after(n, s, step, answers).1,
            log(n, s, step, answers),
        ),
    decreases answers.len(),
{
    if answers.len() > 0 {
        let front = answers.drop_last();
        assert forall|k: int| 0 <= k < front.len() implies (
        #[trigger] front[k] matches AnswerView::Numbers(pids) ==> pids.len() <= usize::MAX) by {
            assert(front[k] == answers[k]);
        }
        lemma_on_script(n, s, step, front);
        lemma_sizes(n, s, step, front);
        assert(answers.last() == answers[answers.len() - 1]);
        let (t, tstep) = after(n, s, step, front);
        lemma_on_script_step(n, t, tstep, answers.last(), log(n, s, step, front));
    }
}

/// A plan that has just begun.
pub open spec fn begun(pid: i32, plan: PlanView) -> InjectionView {
    InjectionView {
        pid,
        plan,
        scratch: 0,
        tty_fd: 0,
        dummy: 0,
        group: Seq::empty(),
        trouble: None,
        phase: Phase::Mapping,
    }
}

/// Answers that a machine can hold, each of which the plan is waiting for
/// when it comes.
pub open spec fn possible(
    n: Syscalls,
    pid: i32,
    plan: PlanView,
    answers: Seq<AnswerView>,
) -> bool {
    &&& plan.wf()
    &&& plan.fds.len() <= usize::MAX
    &&& accepts(n, begun(pid, plan), StepView::Do(mmap_call(n)), answers)
    &&& forall|k: int|
        0 <= k < answers.len() ==> (#[trigger] answers[k] matches AnswerView::Numbers(pids)
            ==> pids.len() <= usize::MAX)
}

/// What a plan goes by is what it was answered: the scratch page, the dummy,
/// the process group and the slave's fd.
pub open spec fn goes_by(n: Syscalls, s: InjectionView, log: Log) -> bool {
    let opened = (opening(n, s) + session_move(n, s)).len() as int;
    &&& log.len() > 0 ==> log[0].1 == AnswerView::Value(s.scratch as i64)
    &&& log.len() > 4 && !s.plan.is_session_leader ==> log[4].1 == AnswerView::Number(s.dummy)
    &&& log.len() > 7 && !s.plan.is_session_leader ==> log[7].1 == AnswerView::Numbers(s.group)
    &&& log.len() > opened ==> log[opened].1 == AnswerView::Value(s.tty_fd)
}

#[verifier::spinoff_prover]
proof fn lemma_goes_by_step(
    n: Syscalls,
    s: InjectionView,
    step: StepView<()>,
    answer: AnswerView,
    before: Log,
)
    requires
        on_script(n, s, step, before),
        goes_by(n, s, before),
        untroubled(n, s, answer),
        step is Do,
    ensures
        goes_by(n, next(n, s, answer).0, before.push((step->Do_0, answer))),
{
    let s2 = next(n, s, answer).0;
    let log = before.push((step->Do_0, answer));
    assert(before.len() == requests(before).len());
    assert(before.len() == trail(n, s).len());
    assert(forall|i: int| 0 <= i < before.len() ==> log[i] == before[i]);
    assert(dance_in(n, s).len() == 4 && dance_out(n, s).len() == 5 && opening(n, s).len() == 4);
    assert(moves(n, s).len() == s.group.len());
    if in_acquire(s) && !(s.phase is Opening) {
        assert(session_move(n, s2) == session_move(n, s));
        assert(before.len() > (opening(n, s) + session_move(n, s)).len());
    }
}

proof fn lemma_goes_by(
    n: Syscalls,
    s: InjectionView,
    step: StepView<()>,
    answers: Seq<AnswerView>,
)
    requires
        on_script(n, s, step, Seq::empty()),
        s.group.len() <= usize::MAX,
        s.plan.fds.len() <= usize::MAX,
        accepts(n, s, step, answers),
        forall|k: int|
            0 <= k < answers.len() ==> (#[trigger] answers[k] matches AnswerView::Numbers(pids)
                ==> pids.len() <= usize::MAX),
    ensures
        ({
            let (t, tstep) = after(n, s, step, answers);
            t.trouble is None && (t.phase is Over ==> tstep == StepView::<()>::Finish(Ok(())))
                ==> goes_by(n, t, log(n, s, step, answers))
        }),
    decreases answers.len(),
{
    if answers.len() > 0 {
        let front = answers.drop_last();
        assert forall|k: int| 0 <= k < front.len() implies (
        #[trigger] front[k] matches AnswerView::Numbers(pids) ==> pids.len() <= usize::MAX) by {
            assert(front[k] == answers[k]);
        }
        assert(answers.last() == answers[answers.len() - 1]);
        lemma_goes_by(n, s, step, front);
        lemma_on_script(n, s, step, front);
        lemma_sizes(n, s, step, front);
        let (t, tstep) = after(n, s, step, front);
        let (u, ustep) = after(n, s, step, answers);
        if u.trouble is None && (u.phase is Over ==> ustep == StepView::<()>::Finish(Ok(()))) {
            lemma_goes_by_step(n, t, tstep, answers.last(), log(n, s, step, front));
        }
    }
}

/// A plan that succeeds has made exactly the requests of the script, in
/// order, with the values that it was answered; and every request that
/// matters was answered without an error.
pub proof fn successful_plan_follows_the_script(
    n: Syscalls,
    pid: i32,
    plan: PlanView,
    answers: Seq<AnswerView>,
)
    requires
        possible(n, pid, plan, answers),
        after(n, begun(pid, plan), StepView::Do(mmap_call(n)), answers).1 == StepView::<
            (),
        >::Finish(Ok(())),
    ensures
        ({
            let s = begun(pid, plan);
            let step = StepView::Do(mmap_call(n));
            let t = after(n, s, step, answers).0;
            let done = log(n, s, step, answers);
            &&& t.plan == plan && t.pid == pid
            &&& requests(done) == script(n, t)
            &&& goes_by(n, t, done)
            &&& forall|k: int|
                0 <= k < done.len() ==> tolerates(n, #[trigger] done[k].0, done[k].1)
        }),
{
    let s = begun(pid, plan);
    let step = StepView::Do(mmap_call(n));
    assert(requests(Seq::empty()) =~= trail(n, s));
    lemma_on_script(n, s, step, answers);
    lemma_sizes(n, s, step, answers);
    lemma_goes_by(n, s, step, answers);
    assert(after(n, s, step, answers).0.trouble is None) by {
        lemma_trouble(n, s, step, answers);
    }
}

proof fn lemma_trouble(
    n: Syscalls,
    s: InjectionView,
    step: StepView<()>,
    answers: Seq<AnswerView>,
)
    requires
        s.phase is Mapping,
        s.trouble is None,
        accepts(n, s, step, answers),
    ensures
        ({
            let t = after(n, s, step, answers).0;
            t.phase is Over || t.phase is Mapping ==> t.trouble is None
        }),
    decreases answers.len(),
{
    if answers.len() > 0 {
        lemma_trouble(n, s, step, answers.drop_last());
    }
}

/// The open files of the target, by file descriptor, once a request of the
/// plan was answered. A file is just a number here; the new pty slave is the
/// file `slave`, and the only one that a plan opens.
pub open spec fn files_after(
    n: Syscalls,
    slave: int,
    files: Map<u64, int>,
    request: RequestView,
    answer: AnswerView,
) -> Map<u64, int> {
    match (request, answer) {
        (RequestView::Call { nr, args }, AnswerView::Value(value)) => if value < 0 {
            files
        } else if nr == n.openat {
            files.insert(value as u64, slave)
        } else if nr == n.dup && files.contains_key(args[0]) {
            files.insert(args[1], files[args[0]])
        } else if nr == n.close {
            files.remove(args[0])
        } else {
            files
        },
        _ => files,
    }
}

/// The open files of the target once the requests of `log` were answered.
pub open spec fn files_at(
    n: Syscalls,
    slave: int,
    files: Map<u64, int>,
    log: Log,
) -> Map<u64, int>
    decreases log.len(),
{
    if log.len() == 0 {
        files
    } else {
        files_after(
            n,
            slave,
            files_at(n, slave, files, log.drop_last()),
            log.last().0,
            log.last().1,
        )
    }
}

/// Whether `fd` is what it was before.
pub open spec fn untouched(before: Map<u64, int>, files: Map<u64, int>, fd: u64) -> bool {
    &&& files.contains_key(fd) <==> before.contains_key(fd)
    &&& files.contains_key(fd) ==> files[fd] == before[fd]
}

/// The first `i` of the selected fds are on the slave, and nothing else but
/// the slave's own fd has changed.
spec fn placed(
    plan: PlanView,
    own: i64,
    slave: int,
    before: Map<u64, int>,
    files: Map<u64, int>,
    i: int,
) -> bool {
    &&& own >= 0
    &&& forall|j: int|
        0 <= j < i ==> files.contains_key((#[trigger] plan.fds[j]) as u64)
            && files[plan.fds[j] as u64] == slave
    &&& forall|fd: u64|
        fd != own as u64 && (forall|j: int|
            0 <= j < i ==> fd != #[trigger] plan.fds[j] as u64) ==> #[trigger] untouched(
            before,
            files,
            fd,
        )
}

/// How the open files stand to the plan, as long as nothing went wrong.
spec fn in_place(
    n: Syscalls,
    s: InjectionView,
    step: StepView<()>,
    slave: int,
    before: Map<u64, int>,
    log: Log,
) -> bool {
    let files = files_at(n, slave, before, log);
    let own = s.tty_fd as u64;
    let len = s.plan.fds.len() as int;
    s.trouble is None && (s.phase is Over ==> step == StepView::<()>::Finish(Ok(()))) ==> match s.phase {
        Phase::Controlling => {
            &&& files.contains_key(own) && files[own] == slave
            &&& placed(s.plan, s.tty_fd, slave, before, files, 0)
        },
        Phase::Dupping(i) => {
            &&& files.contains_key(own) && files[own] == slave
            &&& placed(s.plan, s.tty_fd, slave, before, files, i as int)
        },
        Phase::Closing => {
            &&& files.contains_key(own) && files[own] == slave
            &&& placed(s.plan, s.tty_fd, slave, before, files, len)
        },
        Phase::Unmapping => {
            &&& placed(s.plan, s.tty_fd, slave, before, files, len)
            &&& !redirects(s.plan, s.tty_fd) && (log.last().1 matches AnswerView::Value(value)
                && value >= 0) ==> !files.contains_key(own)
        },
        Phase::Over => {
            &&& placed(s.plan, s.tty_fd, slave, before, files, len)
            &&& !redirects(s.plan, s.tty_fd) && (log[log.len()
                - 2].1 matches AnswerView::Value(value) && value >= 0) ==> !files.contains_key(own)
        },
        _ => files == before,
    }
}

#[verifier::spinoff_prover]
proof fn lemma_in_place_step(
    n: Syscalls,
    s: InjectionView,
    step: StepView<()>,
    slave: int,
    before: Map<u64, int>,
    answer: AnswerView,
    log: Log,
)
    requires
        n.tell_fds_apart(),
        in_shape(n, s, step, log),
        in_place(n, s, step, slave, before, log),
        expects(s, answer),
        s.plan.fds.len() <= usize::MAX,
    ensures
        ({
            let (s2, step2) = next(n, s, answer);
            in_place(n, s2, step2, slave, before, log.push((step->Do_0, answer)))
        }),
{
    let (s2, step2) = next(n, s, answer);
    let more = log.push((step->Do_0, answer));
    assert(more.drop_last() =~= log);
    let files = files_at(n, slave, before, log);
    let files2 = files_at(n, slave, before, more);
    let len = s.plan.fds.len() as int;
    assert(forall|x: i32, y: i64|
        y >= 0 && x as i64 != y ==> #[trigger] (x as u64) != #[trigger] (y as u64)) by (bit_vector);
    if s.trouble is None && s2.trouble is None && !(step2 matches StepView::Finish(Err(_))) {
        match s.phase {
            Phase::Opening => {},
            Phase::Controlling => {
                assert(n.keeps_fds(n.ioctl));
                assert(files2 == files);
                lemma_position(n, s, 0);
            },
            Phase::Dupping(i) => {
                assert(files2 == files.insert(s.plan.fds[i as int] as u64, slave));
                lemma_position(n, s, i + 1);
                let k = position_from(s.plan, s.tty_fd, i + 1);
                assert(placed(s.plan, s.tty_fd, slave, before, files2, k)) by {
                    assert forall|fd: u64|
                        fd != s.tty_fd as u64 && (forall|j: int|
                            0 <= j < k ==> fd != #[trigger] s.plan.fds[j] as u64) implies #[trigger] untouched(
                        before,
                        files2,
                        fd,
                    ) by {
                        assert(fd != s.plan.fds[i as int] as u64);
                        assert(untouched(before, files, fd));
                    }
                }
            },
            Phase::Closing => {
                assert forall|j: int| 0 <= j < len implies (#[trigger] s.plan.fds[j]) as u64
                    != s.tty_fd as u64 by {
                    assert(s.plan.fds[j] != s.tty_fd);
                }
                assert(placed(s.plan, s.tty_fd, slave, before, files2, len)) by {
                    assert forall|fd: u64|
                        fd != s.tty_fd as u64 && (forall|j: int|
                            0 <= j < len ==> fd != #[trigger] s.plan.fds[j] as u64) implies #[trigger] untouched(
                        before,
                        files2,
                        fd,
                    ) by {
                        assert(untouched(before, files, fd));
                    }
                }
            },
            Phase::Unmapping => {
                assert(n.keeps_fds(n.munmap));
                assert(files2 == files);
            },
            _ => {
                assert(n.keeps_fds(n.mmap) && n.keeps_fds(n.ioctl) && n.keeps_fds(n.setsid));
                assert(n.keeps_fds(n.setpgid) && n.keeps_fds(n.kill) && n.keeps_fds(n.wait4));
                assert(n.keeps_fds(n.rt_sigaction));
                assert(files2 == files);
            },
        }
    }
}

proof fn lemma_in_place(
    n: Syscalls,
    s: InjectionView,
    step: StepView<()>,
    slave: int,
    before: Map<u64, int>,
    answers: Seq<AnswerView>,
)
    requires
        n.tell_fds_apart(),
        on_script(n, s, step, Seq::empty()),
        s.group.len() <= usize::MAX,
        s.plan.fds.len() <= usize::MAX,
        accepts(n, s, step, answers),
        forall|k: int|
            0 <= k < answers.len() ==> (#[trigger] answers[k] matches AnswerView::Numbers(pids)
                ==> pids.len() <= usize::MAX),
    ensures
        in_place(
            n,
            after(n, s, step, answers).0,
            after(n, s, step, answers).1,
            slave,
            before,
            log(n, s, step, answers),
        ),
    decreases answers.len(),
{
    if answers.len() > 0 {
        let front = answers.drop_last();
        assert forall|k: int| 0 <= k < front.len() implies (
        #[trigger] front[k] matches AnswerView::Numbers(pids) ==> pids.len() <= usize::MAX) by {
            assert(front[k] == answers[k]);
        }
        lemma_in_place(n, s, step, slave, before, front);
        lemma_on_script(n, s, step, front);
        lemma_sizes(n, s, step, front);
        let (t, tstep) = after(n, s, step, front);
        lemma_in_place_step(n, t, tstep, slave, before, answers.last(), log(n, s, step, front));
    }
}

/// When a plan succeeds, every fd that it selects is open in the target and
/// on the new pty slave, whatever it was before. No other fd has changed,
/// and where the slave was opened as an fd that is not selected, that one is
/// closed again. (Closing it is the last request but one, and best effort.)
pub proof fn selected_fds_end_on_the_slave<A: Arch>(
    pid: i32,
    plan: PlanView,
    answers: Seq<AnswerView>,
    slave: int,
    before: Map<u64, int>,
)
    requires
        possible(A::numbers(), pid, plan, answers),
        after(
            A::numbers(),
            begun(pid, plan),
            StepView::Do(mmap_call(A::numbers())),
            answers,
        ).1 == StepView::<()>::Finish(Ok(())),
    ensures
        ({
            let n = A::numbers();
            let s = begun(pid, plan);
            let step = StepView::Do(mmap_call(n));
            let own = after(n, s, step, answers).0.tty_fd;
            let done = log(n, s, step, answers);
            let files = files_at(n, slave, before, done);
            &&& forall|i: int|
                0 <= i < plan.fds.len() ==> files.contains_key((#[trigger] plan.fds[i]) as u64)
                    && files[plan.fds[i] as u64] == slave
            &&& forall|fd: u64|
                fd != own as u64 && (forall|i: int|
                    0 <= i < plan.fds.len() ==> fd != #[trigger] plan.fds[i] as u64)
                    ==> #[trigger] untouched(before, files, fd)
            &&& !redirects(plan, own) && (done[done.len() - 2].1 matches AnswerView::Value(value)
                && value >= 0) ==> !files.contains_key(own as u64)
        }),
{
    let n = A::numbers();
    let s = begun(pid, plan);
    let step = StepView::Do(mmap_call(n));
    A::numbers_law();
    assert(requests(Seq::empty()) =~= trail(n, s));
    lemma_in_place(n, s, step, slave, before, answers);
    lemma_on_script(n, s, step, answers);
    lemma_sizes(n, s, step, answers);
    lemma_trouble(n, s, step, answers);
}

/// Once the scratch page is mapped, however the plan ends, the last thing
/// that it asks for is to release that page.
pub proof fn scratch_page_is_always_released(
    n: Syscalls,
    pid: i32,
    plan: PlanView,
    answers: Seq<AnswerView>,
)
    requires
        possible(n, pid, plan, answers),
        after(n, begun(pid, plan), StepView::Do(mmap_call(n)), answers).1 is Finish,
    ensures
        ({
            let done = log(n, begun(pid, plan), StepView::Do(mmap_call(n)), answers);
            match done[0].1 {
                AnswerView::Value(scratch) if scratch >= 0 => done.last().0 == munmap_call(
                    n,
                    scratch as u64,
                ),
                _ => done.len() == 1,
            }
        }),
{
    let s = begun(pid, plan);
    let step = StepView::Do(mmap_call(n));
    assert(requests(Seq::empty()) =~= trail(n, s));
    lemma_on_script(n, s, step, answers);
    lemma_first(n, s, step, answers);
}

proof fn lemma_first(n: Syscalls, s: InjectionView, step: StepView<()>, answers: Seq<AnswerView>)
    requires
        s.phase is Mapping,
        answers.len() > 0,
        accepts(n, s, step, answers),
    ensures
        log(n, s, step, answers).len() == answers.len(),
        log(n, s, step, answers)[0].1 == answers[0],
        expects(s, answers[0]),
        answers.len() == 1 ==> after(n, s, step, answers) == next(n, s, answers[0]),
        answers.len() > 1 ==> next(n, s, answers[0]).1 is Do,
    decreases answers.len(),
{
    let front = answers.drop_last();
    if front.len() > 0 {
        lemma_first(n, s, step, front);
        assert(front[0] == answers[0]);
    } else {
        assert(after(n, s, step, front) == (s, step));
        assert(log(n, s, step, front).len() == 0);
    }
}

/// SIGHUP is ignored before the target leaves its session: when the session
/// move begins, exactly the opening of the script was asked for, and the
/// last of it, which ignores SIGHUP, succeeded.
pub proof fn sighup_is_ignored_before_the_move(
    n: Syscalls,
    pid: i32,
    plan: PlanView,
    answers: Seq<AnswerView>,
)
    requires
        possible(n, pid, plan, answers),
        ({
            let t = after(n, begun(pid, plan), StepView::Do(mmap_call(n)), answers).0;
            t.phase is Forking || t.phase is Dropping
        }),
    ensures
        ({
            let s = begun(pid, plan);
            let step = StepView::Do(mmap_call(n));
            let t = after(n, s, step, answers).0;
            let done = log(n, s, step, answers);
            &&& requests(done) == opening(n, t)
            &&& done.last().0 == sigaction_call(n, t.scratch)
            &&& done.last().1 matches AnswerView::Value(value)
            &&& value >= 0
        }),
{
    let s = begun(pid, plan);
    let step = StepView::Do(mmap_call(n));
    assert(requests(Seq::empty()) =~= trail(n, s));
    lemma_on_script(n, s, step, answers);
    lemma_first(n, s, step, answers);
    let before = after(n, s, step, answers.drop_last()).0;
    let t = after(n, s, step, answers).0;
    let done = log(n, s, step, answers);
    assert(before.phase is Ignoring);
    assert(t.trouble is None);
    assert(requests(done).len() == done.len());
    assert(requests(done)[3] == done[3].0);
}

/// Everything that a plan writes into the target goes into the scratch
/// page, as long as the path is not absurdly long; the path stays in front
/// of the sigaction.
pub proof fn writes_stay_in_the_scratch_page(n: Syscalls, s: InjectionView, answer: AnswerView)
    requires
        s.wf(),
        expects(s, answer),
        bytes::c_bytes(s.plan.slave_path).len() <= ACT_OFF,
    ensures
        ({
            let (t, step) = next(n, s, answer);
            step matches StepView::Do(RequestView::Write { addr, data }) ==> {
                let end = addr + 8 * ptrace::words_for(data.len());
                &&& t.scratch <= addr
                &&& end <= t.scratch + PAGE_SIZE
                &&& addr < t.scratch + ACT_OFF ==> end <= t.scratch + ACT_OFF
            }
        }),
{
}

/// When the session move is refused, the dummy is killed, let go and
/// reaped, then the scratch page is released, and the refusal is reported.
pub proof fn refused_move_retires_the_dummy(
    n: Syscalls,
    s: InjectionView,
    value: i64,
    answers: Seq<AnswerView>,
)
    requires
        s.phase is Leading || s.phase is Leaving,
        i64::MIN < value < 0,
        answers.len() == 4,
        accepts(
            n,
            next(n, s, AnswerView::Value(value)).0,
            next(n, s, AnswerView::Value(value)).1,
            answers,
        ),
    ensures
        ({
            let (t, step) = next(n, s, AnswerView::Value(value));
            &&& requests(log(n, t, step, answers)) == seq![
                RequestView::Call {
                    nr: n.kill,
                    args: seq![s.dummy as u64, SIGKILL as u64, 0, 0, 0, 0],
                },
                RequestView::Detach { tid: s.dummy },
                RequestView::Reap { tid: s.dummy },
                munmap_call(n, s.scratch),
            ]
            &&& after(n, t, step, answers).1 == StepView::<()>::Finish(
                Err(
                    remote::failed(
                        if s.phase is Leading {
                            "remote setpgid on dummy"@
                        } else {
                            "remote setsid"@
                        },
                        value,
                    ),
                ),
            )
        }),
{
    let (t, step) = next(n, s, AnswerView::Value(value));
    reveal_with_fuel(after, 5);
    reveal_with_fuel(log, 5);
    reveal_with_fuel(accepts, 5);
    let a3 = answers.drop_last();
    let a2 = a3.drop_last();
    let a1 = a2.drop_last();
    let a0 = a1.drop_last();
    assert(a0.len() == 0);
    assert(after(n, t, step, a0) == (t, step));
    assert(requests(log(n, t, step, answers)) =~= seq![
        RequestView::Call { nr: n.kill, args: seq![s.dummy as u64, SIGKILL as u64, 0, 0, 0, 0] },
        RequestView::Detach { tid: s.dummy },
        RequestView::Reap { tid: s.dummy },
        munmap_call(n, s.scratch),
    ]);
}

/// Whatever a request can bring back, the plan is prepared for it.
pub proof fn every_answer_is_expected(
    n: Syscalls,
    s: InjectionView,
    given: AnswerView,
    request: RequestView,
    answer: AnswerView,
)
    requires
        expects(s, given),
        next(n, s, given).1 == StepView::<()>::Do(request),
        remote::answers(request, answer),
    ensures
        expects(next(n, s, given).0, answer),
{
}

// ---------------------------------------------------------------------
// How a plan fails, and that it does not fail otherwise
// ---------------------------------------------------------------------

/// An answer that reports no error: no failure, and no negative value.
pub open spec fn in_order(answer: AnswerView) -> bool {
    match answer {
        AnswerView::Failed(_) => false,
        AnswerView::Value(value) => value >= 0,
        _ => true,
    }
}

/// An answer in order never brings trouble, whatever its value: a plan is
/// in trouble afterwards only if it was before, and it ends with an error
/// only for the trouble that it was in already.
pub proof fn answer_in_order_brings_no_trouble(n: Syscalls, s: InjectionView, answer: AnswerView)
    requires
        s.wf(),
        expects(s, answer),
        in_order(answer),
    ensures
        ({
            let (t, step) = next(n, s, answer);
            &&& t.trouble is Some ==> t.trouble == s.trouble
            &&& s.trouble is None ==> !(t.phase is RetireKilling) || s.phase is RetireKilling
            &&& step matches StepView::Finish(result) ==> match result {
                Ok(_) => s.trouble is None,
                Err(e) => s.trouble == Some(e),
            }
        }),
{
}

/// What is reported of a request whose answer ended the plan.
pub open spec fn complaint(
    n: Syscalls,
    plan: PlanView,
    request: RequestView,
    answer: AnswerView,
) -> ErrorView {
    match (answer, request) {
        (AnswerView::Failed(e), _) => e,
        (AnswerView::Value(value), RequestView::Call { nr, args }) => remote::failed(
            if nr == n.mmap {
                "remote mmap"@
            } else if nr == n.rt_sigaction {
                "remote rt_sigaction(SIGHUP, SIG_IGN)"@
            } else if nr == n.setsid {
                "remote setsid"@
            } else if nr == n.openat {
                "remote openat("@ + plan.slave_path + ")"@
            } else if nr == n.dup {
                "remote dup to fd "@ + text::signed_decimal(args[1] as i32 as int)
            } else {
                "remote TIOCSCTTY"@
            },
            value,
        ),
        (AnswerView::Value(value), _) => remote::failed("remote setpgid on dummy"@, value),
        _ => arbitrary(),
    }
}

/// Whether the answer refuses the session move, so that the dummy has to be
/// retired.
pub open spec fn refuses_move(n: Syscalls, request: RequestView, answer: AnswerView) -> bool {
    answer is Value && match request {
        RequestView::CallChild { .. } => true,
        RequestView::Call { nr, .. } => nr == n.setsid,
        _ => false,
    }
}

/// What is still asked for, before the scratch page is released, once an
/// answer has ended the plan.
pub open spec fn aftermath(
    n: Syscalls,
    dummy: i32,
    request: RequestView,
    answer: AnswerView,
) -> Seq<RequestView> {
    if refuses_move(n, request, answer) {
        seq![
            RequestView::Call { nr: n.kill, args: seq![dummy as u64, SIGKILL as u64, 0, 0, 0, 0] },
            RequestView::Detach { tid: dummy },
            RequestView::Reap { tid: dummy },
        ]
    } else {
        Seq::empty()
    }
}

/// The first position of a log whose answer the plan does not go on after.
spec fn first_bad(n: Syscalls, log: Log) -> Option<int>
    decreases log.len(),
{
    if log.len() == 0 {
        None
    } else {
        match first_bad(n, log.drop_last()) {
            Some(k) => Some(k),
            None => if tolerates(n, log.last().0, log.last().1) {
                None
            } else {
                Some(log.len() - 1)
            },
        }
    }
}

proof fn lemma_first_bad(n: Syscalls, log: Log)
    ensures
        match first_bad(n, log) {
            None => forall|i: int| 0 <= i < log.len() ==> tolerates(n, #[trigger] log[i].0, log[i].1),
            Some(k) => {
                &&& 0 <= k < log.len()
                &&& !tolerates(n, log[k].0, log[k].1)
                &&& forall|i: int| 0 <= i < k ==> tolerates(n, #[trigger] log[i].0, log[i].1)
            },
        },
    decreases log.len(),
{
    if log.len() > 0 {
        lemma_first_bad(n, log.drop_last());
        assert(forall|i: int| 0 <= i < log.len() - 1 ==> log.drop_last()[i] == log[i]);
    }
}

/// How the trouble of a plan stands to its log.
spec fn blamed(n: Syscalls, s: InjectionView, step: StepView<()>, log: Log) -> bool {
    let bad = first_bad(n, log);
    let asked = requests(log);
    let len = log.len() as int;
    match bad {
        None => match s.phase {
            Phase::Over => step == StepView::<()>::Finish(Ok(())),
            Phase::RetireKilling | Phase::RetireParting | Phase::RetireReaping => false,
            _ => s.trouble is None && step is Do,
        },
        Some(k) => {
            let (request, answer) = log[k];
            let e = complaint(n, s.plan, request, answer);
            let rest = aftermath(n, s.dummy, request, answer);
            &&& 0 <= k < len
            &&& match s.phase {
                Phase::Over => {
                    &&& step == StepView::<()>::Finish(Err(e))
                    &&& k > 0 ==> asked.skip(k + 1) == rest.push(munmap_call(n, s.scratch))
                    &&& k == 0 ==> len == 1
                },
                Phase::Unmapping => {
                    &&& s.trouble == Some(e)
                    &&& asked.skip(k + 1) == rest
                    &&& k > 0
                },
                Phase::RetireKilling => {
                    &&& s.trouble == Some(e) && refuses_move(n, request, answer) && k > 0
                    &&& step == StepView::<()>::Do(rest[0])
                    &&& asked.skip(k + 1) == rest.take(0)
                },
                Phase::RetireParting => {
                    &&& s.trouble == Some(e) && refuses_move(n, request, answer) && k > 0
                    &&& step == StepView::<()>::Do(rest[1])
                    &&& asked.skip(k + 1) == rest.take(1)
                },
                Phase::RetireReaping => {
                    &&& s.trouble == Some(e) && refuses_move(n, request, answer) && k > 0
                    &&& step == StepView::<()>::Do(rest[2])
                    &&& asked.skip(k + 1) == rest.take(2)
                },
                _ => false,
            }
        },
    }
}

/// A plan without trouble gets into it, or ends with an error, only by an
/// answer that it does not go on after, and then for that answer.
#[verifier::spinoff_prover]
proof fn lemma_trouble_begins(n: Syscalls, s: InjectionView, step: StepView<()>, answer: AnswerView, log: Log)
    requires
        n.tell_apart(),
        in_shape(n, s, step, log),
        s.trouble is None,
        !(s.phase is Over),
        expects(s, answer),
    ensures
        ({
            let (t, tstep) = next(n, s, answer);
            let request = step->Do_0;
            let e = complaint(n, s.plan, request, answer);
            if tolerates(n, request, answer) {
                &&& t.trouble is None
                &&& !(tstep matches StepView::Finish(Err(_)))
                &&& t.phase is Over ==> tstep == StepView::<()>::Finish(Ok(()))
                &&& !(t.phase is RetireKilling) && !(t.phase is RetireParting) && !(t.phase
                    is RetireReaping)
            } else if s.phase is Mapping {
                t.phase is Over && tstep == StepView::<()>::Finish(Err(e))
            } else {
                &&& t.trouble == Some(e)
                &&& if refuses_move(n, request, answer) {
                    &&& t.phase is RetireKilling
                    &&& tstep == StepView::<()>::Do(aftermath(n, t.dummy, request, answer)[0])
                } else {
                    t.phase is Unmapping
                }
            }
        }),
{
    let listed = n.listed();
    assert(listed[0] == n.dup && listed[1] == n.mmap && listed[2] == n.munmap && listed[3]
        == n.openat && listed[4] == n.ioctl && listed[5] == n.setsid && listed[6] == n.close
        && listed[8] == n.setpgid && listed[9] == n.kill && listed[10] == n.wait4 && listed[11]
        == n.rt_sigaction);
    if let Phase::Dupping(i) = s.phase {
        let fd = s.plan.fds[i as int];
        assert((fd as u64) as i32 == fd) by (bit_vector);
        let args = seq![s.tty_fd as u64, fd as u64, 0, 0, 0, 0];
        assert(args[1] == fd as u64);
    }
    let no_tty = seq![s.plan.fds[0] as u64, TIOCNOTTY, 0, 0, 0, 0];
    assert(no_tty[1] == TIOCNOTTY);
    let own_tty = seq![s.tty_fd as u64, TIOCSCTTY, 1, 0, 0, 0];
    assert(own_tty[1] == TIOCSCTTY);
}

#[verifier::spinoff_prover]
proof fn lemma_blamed_step(
    n: Syscalls,
    s: InjectionView,
    step: StepView<()>,
    answer: AnswerView,
    log: Log,
)
    requires
        n.tell_apart(),
        in_shape(n, s, step, log),
        blamed(n, s, step, log),
        expects(s, answer),
    ensures
        ({
            let (t, tstep) = next(n, s, answer);
            blamed(n, t, tstep, log.push((step->Do_0, answer)))
        }),
{
    let (t, tstep) = next(n, s, answer);
    let entry = (step->Do_0, answer);
    let more = log.push(entry);
    assert(more.drop_last() =~= log);
    assert(requests(more) =~= requests(log).push(entry.0));
    lemma_first_bad(n, log);
    match first_bad(n, log) {
        None => {
            lemma_trouble_begins(n, s, step, answer, log);
            let k = more.len() - 1;
            assert(requests(more).skip(k + 1) =~= Seq::<RequestView>::empty());
            assert(aftermath(n, t.dummy, entry.0, entry.1).take(0) =~= Seq::<
                RequestView,
            >::empty());
        },
        Some(k) => {
            assert(more[k] == log[k]);
            let rest = aftermath(n, s.dummy, log[k].0, log[k].1);
            assert(requests(more).skip(k + 1) =~= requests(log).skip(k + 1).push(entry.0));
            if refuses_move(n, log[k].0, log[k].1) {
                assert(rest.take(0).push(rest[0]) =~= rest.take(1));
                assert(rest.take(1).push(rest[1]) =~= rest.take(2));
                assert(rest.take(2).push(rest[2]) =~= rest);
            }
        },
    }
}

proof fn lemma_blamed(
    n: Syscalls,
    s: InjectionView,
    step: StepView<()>,
    answers: Seq<AnswerView>,
)
    requires
        n.tell_apart(),
        on_script(n, s, step, Seq::empty()),
        blamed(n, s, step, Seq::empty()),
        s.group.len() <= usize::MAX,
        s.plan.fds.len() <= usize::MAX,
        accepts(n, s, step, answers),
        forall|k: int|
            0 <= k < answers.len() ==> (#[trigger] answers[k] matches AnswerView::Numbers(pids)
                ==> pids.len() <= usize::MAX),
    ensures
        blamed(
            n,
            after(n, s, step, answers).0,
            after(n, s, step, answers).1,
            log(n, s, step, answers),
        ),
    decreases answers.len(),
{
    if answers.len() > 0 {
        let front = answers.drop_last();
        assert forall|k: int| 0 <= k < front.len() implies (
        #[trigger] front[k] matches AnswerView::Numbers(pids) ==> pids.len() <= usize::MAX) by {
            assert(front[k] == answers[k]);
        }
        lemma_blamed(n, s, step, front);
        lemma_on_script(n, s, step, front);
        let (t, tstep) = after(n, s, step, front);
        lemma_blamed_step(n, t, tstep, answers.last(), log(n, s, step, front));
    }
}

/// A plan fails only for an error that matters. As long as every answer is
/// one that it goes on after - in particular as long as no request fails
/// and no call returns a negative value - nothing troubles it: what it has
/// asked for, with the request that is outstanding, is the beginning of the
/// script, and when it is over it has succeeded and gone through the whole
/// script.
pub proof fn undisturbed_plan_succeeds<A: Arch>(
    pid: i32,
    plan: PlanView,
    answers: Seq<AnswerView>,
)
    requires
        possible(A::numbers(), pid, plan, answers),
        ({
            let n = A::numbers();
            let done = log(n, begun(pid, plan), StepView::Do(mmap_call(n)), answers);
            forall|k: int|
                0 <= k < done.len() ==> in_order(#[trigger] done[k].1) || tolerates(
                    n,
                    done[k].0,
                    done[k].1,
                )
        }),
    ensures
        ({
            let n = A::numbers();
            let s = begun(pid, plan);
            let step = StepView::Do(mmap_call(n));
            let (t, tstep) = after(n, s, step, answers);
            let done = log(n, s, step, answers);
            &&& t.trouble is None
            &&& match tstep {
                StepView::Do(request) => {
                    &&& done.len() < script(n, t).len()
                    &&& requests(done).push(request) == script(n, t).take(done.len() as int + 1)
                },
                StepView::Finish(result) => {
                    &&& result == Ok::<(), ErrorView>(())
                    &&& requests(done) == script(n, t)
                },
            }
        }),
{
    let n = A::numbers();
    let s = begun(pid, plan);
    let step = StepView::Do(mmap_call(n));
    A::numbers_law();
    assert(requests(Seq::empty()) =~= trail(n, s));
    lemma_on_script(n, s, step, answers);
    lemma_blamed(n, s, step, answers);
    lemma_sizes(n, s, step, answers);
    let (t, tstep) = after(n, s, step, answers);
    let done = log(n, s, step, answers);
    lemma_first_bad(n, done);
    assert(first_bad(n, done) is None);
    lemma_trouble(n, s, step, answers);
    if tstep is Do {
        lemma_trail_is_a_beginning(n, t, tstep, done);
        assert(requests(done).len() == done.len());
    }
}

/// What precedes the outstanding request, and that request, begin the
/// script.
#[verifier::spinoff_prover]
#[verifier::rlimit(40)]
proof fn lemma_trail_is_a_beginning(n: Syscalls, s: InjectionView, step: StepView<()>, log: Log)
    requires
        in_shape(n, s, step, log),
        s.trouble is None,
        !(s.phase is Over),
    ensures
        trail(n, s).len() < script(n, s).len(),
        trail(n, s).push(current(n, s)) == script(n, s).take(trail(n, s).len() as int + 1),
        step == StepView::<()>::Do(current(n, s)),
{
    let whole = script(n, s);
    let so_far = trail(n, s).push(current(n, s));
    match s.phase {
        Phase::Dupping(i) => {
            lemma_dups_grow(n, s, i as int, s.plan.fds.len() as int);
            let all = dups(n, s, s.plan.fds.len() as int);
            let some = dups(n, s, i + 1);
            assert(some == dups(n, s, i as int).push(current(n, s)));
            assert(some =~= all.take(some.len() as int));
        },
        _ => {},
    }
    assert(so_far =~= whole.take(so_far.len() as int));
}

/// The redirections of more fds begin with those of fewer.
proof fn lemma_dups_grow(n: Syscalls, s: InjectionView, i: int, k: int)
    requires
        0 <= i < k,
    ensures
        dups(n, s, i + 1).len() <= dups(n, s, k).len(),
        dups(n, s, i + 1) == dups(n, s, k).take(dups(n, s, i + 1).len() as int),
    decreases k - i,
{
    if i + 1 < k {
        lemma_dups_grow(n, s, i, k - 1);
        assert(dups(n, s, i + 1) =~= dups(n, s, k).take(dups(n, s, i + 1).len() as int));
    } else {
        assert(dups(n, s, k) =~= dups(n, s, k).take(dups(n, s, k).len() as int));
    }
}

/// A plan that fails does so for the first answer that it does not go on
/// after, and says of it which request it was and what was wrong. From
/// there on it only tidies up: it retires the dummy where the session move
/// was refused, and releases the scratch page where there is one.
pub proof fn failed_plan_blames_the_first_error<A: Arch>(
    pid: i32,
    plan: PlanView,
    answers: Seq<AnswerView>,
    k: int,
)
    requires
        possible(A::numbers(), pid, plan, answers),
        ({
            let n = A::numbers();
            let s = begun(pid, plan);
            let step = StepView::Do(mmap_call(n));
            let done = log(n, s, step, answers);
            &&& 0 <= k < done.len()
            &&& !tolerates(n, done[k].0, done[k].1)
            &&& forall|i: int| 0 <= i < k ==> tolerates(n, #[trigger] done[i].0, done[i].1)
            &&& after(n, s, step, answers).1 is Finish
        }),
    ensures
        ({
            let n = A::numbers();
            let s = begun(pid, plan);
            let step = StepView::Do(mmap_call(n));
            let (t, tstep) = after(n, s, step, answers);
            let done = log(n, s, step, answers);
            &&& tstep == StepView::<()>::Finish(Err(complaint(n, plan, done[k].0, done[k].1)))
            &&& k == 0 ==> done.len() == 1
            &&& k > 0 ==> requests(done).skip(k + 1) == aftermath(
                n,
                t.dummy,
                done[k].0,
                done[k].1,
            ).push(munmap_call(n, t.scratch))
        }),
{
    let n = A::numbers();
    let s = begun(pid, plan);
    let step = StepView::Do(mmap_call(n));
    A::numbers_law();
    assert(requests(Seq::empty()) =~= trail(n, s));
    lemma_on_script(n, s, step, answers);
    lemma_blamed(n, s, step, answers);
    lemma_sizes(n, s, step, answers);
    let done = log(n, s, step, answers);
    lemma_first_bad(n, done);
    assert(first_bad(n, done) == Some(k));
}

/// The fixed numbers of the plan's requests: a page of 4096 bytes, private
/// and anonymous, for reading and writing; a `struct sigaction` of 32 bytes
/// whose first word is 1 and the rest zero, at offset 256; SIGHUP is 1, and
/// a signal set takes 8 bytes.
pub proof fn requests_in_numbers(n: Syscalls, scratch: u64)
    requires
        scratch <= i64::MAX,
    ensures
        mmap_call(n) == (RequestView::Call {
            nr: n.mmap,
            args: seq![0u64, 4096, 3, 0x22, 0xffff_ffff_ffff_ffff, 0],
        }),
        munmap_call(n, scratch) == (RequestView::Call {
            nr: n.munmap,
            args: seq![scratch, 4096, 0, 0, 0, 0],
        }),
        sigign().len() == 32,
        sigign()[0] == 1,
        forall|i: int| 1 <= i < 32 ==> #[trigger] sigign()[i] == 0,
        stage_action(scratch) == (RequestView::Write {
            addr: (scratch + 256) as u64,
            data: sigign(),
        }),
        sigaction_call(n, scratch) == (RequestView::Call {
            nr: n.rt_sigaction,
            args: seq![1u64, (scratch + 256) as u64, 0, 8, 0, 0],
        }),
{
    assert((1u64 & 0xff) as u8 == 1 && ((1u64 >> 8) & 0xff) as u8 == 0 && ((1u64 >> 16)
        & 0xff) as u8 == 0 && ((1u64 >> 24) & 0xff) as u8 == 0 && ((1u64 >> 32) & 0xff) as u8 == 0
        && ((1u64 >> 40) & 0xff) as u8 == 0 && ((1u64 >> 48) & 0xff) as u8 == 0 && ((1u64 >> 56)
        & 0xff) as u8 == 0) by (bit_vector);
}

/// SIGHUP is ignored once the staged sigaction was written and the call
/// that points at it returned anything that is not negative; else the error
/// says which of the two failed.
pub proof fn shielding_takes_a_write_and_a_call(
    n: Syscalls,
    scratch: u64,
    written: AnswerView,
    acted: AnswerView,
)
    requires
        scratch + ACT_OFF <= u64::MAX,
        remote::answers(stage_action(scratch), written),
        remote::answers(sigaction_call(n, scratch), acted),
    ensures
        ({
            let (s, first) = begun_shield(scratch);
            let (t, step) = next_shield(n, s, written);
            let (u, last) = next_shield(n, t, acted);
            &&& expects_shield(s, written)
            &&& first == StepView::<()>::Do(
                RequestView::Write { addr: (scratch + 256) as u64, data: sigign() },
            )
            &&& match written {
                AnswerView::Failed(e) => step == StepView::<()>::Finish(Err(e)) && t.phase is Over,
                _ => {
                    &&& step == StepView::<()>::Do(sigaction_call(n, scratch))
                    &&& expects_shield(t, acted)
                    &&& u.phase is Over
                    &&& last == StepView::<()>::Finish(
                        match acted {
                            AnswerView::Failed(e) => Err(e),
                            AnswerView::Value(value) => if value >= 0 {
                                Ok(())
                            } else {
                                Err(
                                    remote::failed(
                                        "remote rt_sigaction(SIGHUP, SIG_IGN)"@,
                                        value,
                                    ),
                                )
                            },
                            _ => arbitrary(),
                        },
                    )
                },
            }
        }),
{
}

/// Any address that mmap returns is that of the page, zero among them; a
/// negative value is its error.
pub proof fn scratch_page_is_where_it_was_mapped(addr: u64, errno: nat, value: i64)
    requires
        addr <= i64::MAX,
        0 < errno <= i64::MAX,
    ensures
        value == addr ==> scratch_meaning(value) == Ok::<u64, ErrorView>(addr),
        value == -errno ==> scratch_meaning(value) == Err::<u64, ErrorView>(
            ErrorView::Msg("remote mmap failed (errno "@ + text::decimal(errno) + ")"@),
        ),
{
    if value == -errno {
        remote::refusal_names_the_error_number("remote mmap"@, errno, value);
        reveal_strlit("remote mmap");
        reveal_strlit(" failed (errno ");
        reveal_strlit("remote mmap failed (errno ");
        assert("remote mmap"@ + " failed (errno "@ =~= "remote mmap failed (errno "@);
    }
}

} // verus!
