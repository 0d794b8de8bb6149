//! What the ptrace(2) and waitpid(2) calls of the hijack engine bring back,
//! and what to hand to them.

use vstd::prelude::*;

use crate::abi::{EINTR, EPERM, ESRCH, SIGTRAP};
use crate::arch::{Arch, Regs};
use crate::bytes;
use crate::bytes::join_word;
use crate::error;
use crate::error::{Error, ErrorView};
use crate::text;
use crate::text::{copy_text, push_signed};

pub use crate::arch::SyscallStop;
pub use crate::session::Session;

verus! {

/// How a ptrace-stopped thread came to a stop.
#[derive(Debug, Clone, Copy, PartialEq, Eq, Structural)]
pub enum Stop {
    /// A syscall-entry or syscall-exit stop (PTRACE_O_TRACESYSGOOD).
    Syscall,
    /// A signal-delivery stop; carries the signal number.
    Signal(i32),
    /// A ptrace event stop (e.g. PTRACE_EVENT_FORK); carries the event.
    Event(i32),
    /// The thread exited or was killed.
    Exited,
}

// ---------------------------------------------------------------------
// Results of ptrace(2)
// ---------------------------------------------------------------------

/// What a ptrace request comes to that returns -1 on failure.
pub open spec fn request_meaning(ret: i64, errno: i32) -> Result<(), ErrorView> {
    if ret == -1 {
        Err(ErrorView::Os(errno))
    } else {
        Ok(())
    }
}

/// The outcome of a ptrace request that returns -1 on failure.
pub fn cvt(ret: i64, errno: i32) -> (r: Result<(), Error>)
    ensures
        error::outcome(r) == if ret == -1 {
            Err::<(), ErrorView>(ErrorView::Os(errno))
        } else {
            Ok::<(), ErrorView>(())
        },
        error::outcome(r) == request_meaning(ret, errno),
{
    if ret == -1 {
        Err(Error::Os(errno))
    } else {
        Ok(())
    }
}

pub open spec fn seize_error(tid: i32, errno: i32) -> ErrorView {
    if errno == EPERM {
        ErrorView::Msg(
            "cannot attach to "@ + text::signed_decimal(tid as int)
                + ": permission denied (already traced, or ptrace_scope restrictions)"@,
        )
    } else if errno == ESRCH {
        ErrorView::Msg("no such process or thread: "@ + text::signed_decimal(tid as int))
    } else {
        ErrorView::Os(errno)
    }
}

/// What PTRACE_SEIZE comes to.
pub open spec fn seize_meaning(tid: i32, ret: i64, errno: i32) -> Result<(), ErrorView> {
    if ret == -1 {
        Err(seize_error(tid, errno))
    } else {
        Ok(())
    }
}

/// The outcome of PTRACE_SEIZE.
pub fn seize(tid: i32, ret: i64, errno: i32) -> (r: Result<(), Error>)
    ensures
        error::outcome(r) == if ret == -1 {
            Err::<(), ErrorView>(seize_error(tid, errno))
        } else {
            Ok::<(), ErrorView>(())
        },
        error::outcome(r) == seize_meaning(tid, ret, errno),
{
    if ret != -1 {
        return Ok(());
    }
    if errno == EPERM {
        let mut m: String = copy_text("cannot attach to ");
        push_signed(&mut m, tid as i64);
        m.append(": permission denied (already traced, or ptrace_scope restrictions)");
        Err(Error::Msg(m))
    } else if errno == ESRCH {
        let mut m: String = copy_text("no such process or thread: ");
        push_signed(&mut m, tid as i64);
        Err(Error::Msg(m))
    } else {
        Err(Error::Os(errno))
    }
}

/// What a peek comes to.
pub open spec fn word_meaning(ret: i64, errno: i32) -> Result<u64, ErrorView> {
    if ret == -1 && errno != 0 {
        Err(ErrorView::Os(errno))
    } else {
        Ok(ret as u64)
    }
}

/// The outcome of a peek: -1 is a word like any other unless `errno`, which
/// was cleared before the call, says that the call failed.
pub fn read_word(ret: i64, errno: i32) -> (r: Result<u64, Error>)
    ensures
        error::outcome(r) == if ret == -1 && errno != 0 {
            Err::<u64, ErrorView>(ErrorView::Os(errno))
        } else {
            Ok::<u64, ErrorView>(ret as u64)
        },
        error::outcome(r) == word_meaning(ret, errno),
{
    if ret == -1 && errno != 0 {
        Err(Error::Os(errno))
    } else {
        Ok(ret as u64)
    }
}

pub open spec fn stop_kind<A: Arch>(op: Option<u8>, regs: Option<Regs<A::Raw>>) -> SyscallStop {
    match op {
        Some(op) => if op == 1 || op == 3 {
            SyscallStop::Entry
        } else if op == 2 {
            SyscallStop::Exit
        } else {
            SyscallStop::Unknown
        },
        None => match regs {
            Some(regs) => A::guess(regs.0),
            None => SyscallStop::Unknown,
        },
    }
}

/// Refine a syscall stop into entry/exit: by the `op` that
/// PTRACE_GET_SYSCALL_INFO reported (0 = none, 1 = entry, 2 = exit,
/// 3 = seccomp, before entry), or where it is not available by an
/// architecture-level heuristic on the registers.
pub fn syscall_stop_kind<A: Arch>(a: &A, op: Option<u8>, regs: Option<Regs<A::Raw>>) -> (r:
    SyscallStop)
    ensures
        r == stop_kind::<A>(op, regs),
{
    match op {
        Some(op) => if op == 1 || op == 3 {
            SyscallStop::Entry
        } else if op == 2 {
            SyscallStop::Exit
        } else {
            SyscallStop::Unknown
        },
        None => match regs {
            Some(regs) => a.fallback_syscall_stop(&regs),
            None => SyscallStop::Unknown,
        },
    }
}

// ---------------------------------------------------------------------
// Wait statuses
// ---------------------------------------------------------------------

/// `libc::WIFEXITED`: the low seven bits of a wait status are zero exactly
/// when the process exited normally.
#[verifier::external_body]
fn wifexited(status: i32) -> (r: bool)
    ensures
        r == (status & 0x7f == 0),
{
    libc::WIFEXITED(status)
}

/// `libc::WIFSIGNALED`: the low seven bits hold the signal that killed the
/// process; zero there means a normal exit and 0x7f a stop.
#[verifier::external_body]
fn wifsignaled(status: i32) -> (r: bool)
    ensures
        r == (status & 0x7f != 0 && status & 0x7f != 0x7f),
{
    libc::WIFSIGNALED(status)
}

/// `libc::WSTOPSIG`: the second byte of a wait status.
#[verifier::external_body]
fn wstopsig(status: i32) -> (r: i32)
    ensures
        r == (status >> 8) & 0xff,
{
    libc::WSTOPSIG(status)
}

/// How the thread with the given wait status came to a stop.
pub open spec fn stop_of(status: i32) -> Stop {
    if status & 0x7f != 0x7f {
        Stop::Exited
    } else {
        let sig = (status >> 8) & 0xff;
        if sig == SIGTRAP + 0x80 {
            Stop::Syscall
        } else if sig == SIGTRAP && status >> 16 != 0 {
            Stop::Event(status >> 16)
        } else {
            Stop::Signal(sig)
        }
    }
}

pub fn classify(status: i32) -> (r: Stop)
    ensures
        r == stop_of(status),
{
    if wifexited(status) || wifsignaled(status) {
        return Stop::Exited;
    }
    let sig: i32 = wstopsig(status);
    if sig == SIGTRAP + 0x80 {
        Stop::Syscall
    } else if sig == SIGTRAP && status >> 16 != 0 {
        Stop::Event(status >> 16)
    } else {
        Stop::Signal(sig)
    }
}

/// The wait status of a stop is what the kernel composed it from: a
/// signal, or SIGTRAP with bit 7 set at a syscall stop, or SIGTRAP with an
/// event above it.
pub proof fn stops_are_told_apart(sig: i32, event: i32)
    requires
        0 < sig < 0x80,
        0 < event < 0x80,
    ensures
        stop_of((sig << 8) | 0x7f) == Stop::Signal(sig),
        stop_of(((SIGTRAP + 0x80) as i32) << 8 | 0x7f) == Stop::Syscall,
        stop_of((event << 16) | (SIGTRAP << 8) | 0x7f) == Stop::Event(event),
{
    let trap: i32 = 5;
    let tagged: i32 = 0x85;
    let s1: i32 = (sig << 8) | 0x7f;
    let s2: i32 = (tagged << 8) | 0x7f;
    let s3: i32 = (event << 16) | (trap << 8) | 0x7f;
    assert(s1 & 0x7f == 0x7f && (s1 >> 8) & 0xff == sig && s1 >> 16 == 0) by (bit_vector)
        requires
            0 < sig < 0x80,
            s1 == (sig << 8) | 0x7f,
    ;
    assert(s2 & 0x7f == 0x7f && (s2 >> 8) & 0xff == 0x85) by (bit_vector)
        requires
            tagged == 0x85,
            s2 == (tagged << 8) | 0x7f,
    ;
    assert(s3 & 0x7f == 0x7f && (s3 >> 8) & 0xff == 5 && s3 >> 16 == event) by (bit_vector)
        requires
            0 < event < 0x80,
            trap == 5,
            s3 == (event << 16) | (trap << 8) | 0x7f,
    ;
}

/// What a call of waitpid(2) means for the one who waits.
#[derive(Debug, Clone, Copy, PartialEq, Eq, Structural)]
pub enum WaitStep {
    /// Interrupted: call again.
    Again,
    /// Failed with an `errno`.
    Failed(i32),
    /// The thread stopped.
    Got(Stop),
    /// Nothing happened within the time that was allowed.
    TimedOut,
    /// Nothing happened yet: sleep for so many milliseconds, then call
    /// again.
    Sleep(u64),
}

/// How often a wait with a time limit looks, in milliseconds.
pub const POLL_INTERVAL: u64 = 5;

/// What a blocking waitpid comes to.
pub open spec fn wait_meaning(ret: i32, errno: i32, status: i32) -> WaitStep {
    if ret != -1 {
        WaitStep::Got(stop_of(status))
    } else if errno == EINTR {
        WaitStep::Again
    } else {
        WaitStep::Failed(errno)
    }
}

/// What a waitpid that does not block comes to.
pub open spec fn look_meaning(
    tid: i32,
    ret: i32,
    errno: i32,
    status: i32,
    now: u64,
    deadline: u64,
) -> WaitStep {
    if ret == -1 {
        if errno == EINTR {
            WaitStep::Again
        } else {
            WaitStep::Failed(errno)
        }
    } else if ret == tid {
        WaitStep::Got(stop_of(status))
    } else if now >= deadline {
        WaitStep::TimedOut
    } else {
        WaitStep::Sleep(POLL_INTERVAL)
    }
}

/// Wait for the next event of a specific thread: `ret`, `errno` and
/// `status` are what a blocking waitpid brought back.
pub fn wait(ret: i32, errno: i32, status: i32) -> (r: WaitStep)
    ensures
        r == if ret != -1 {
            WaitStep::Got(stop_of(status))
        } else if errno == EINTR {
            WaitStep::Again
        } else {
            WaitStep::Failed(errno)
        },
        r == wait_meaning(ret, errno, status),
{
    if ret == -1 {
        if errno == EINTR {
            return WaitStep::Again;
        }
        return WaitStep::Failed(errno);
    }
    WaitStep::Got(classify(status))
}

/// Wait up to a deadline for the next event of a specific thread: `ret`,
/// `errno` and `status` are what a waitpid that does not block brought
/// back, `now` and `deadline` are on one clock.
pub fn wait_timeout(tid: i32, ret: i32, errno: i32, status: i32, now: u64, deadline: u64) -> (r:
    WaitStep)
    ensures
        r == if ret == -1 {
            if errno == EINTR {
                WaitStep::Again
            } else {
                WaitStep::Failed(errno)
            }
        } else if ret == tid {
            WaitStep::Got(stop_of(status))
        } else if now >= deadline {
            WaitStep::TimedOut
        } else {
            WaitStep::Sleep(POLL_INTERVAL)
        },
        r == look_meaning(tid, ret, errno, status, now, deadline),
{
    if ret == -1 {
        if errno == EINTR {
            return WaitStep::Again;
        }
        return WaitStep::Failed(errno);
    }
    if ret == tid {
        return WaitStep::Got(classify(status));
    }
    if now >= deadline {
        return WaitStep::TimedOut;
    }
    WaitStep::Sleep(POLL_INTERVAL)
}

// ---------------------------------------------------------------------
// Writing into the tracee
// ---------------------------------------------------------------------

/// A word to store at an address.
#[derive(Debug, Clone, Copy, PartialEq, Eq, Structural)]
pub struct Poke {
    pub addr: u64,
    pub word: u64,
}

/// How many words it takes to hold `len` bytes.
pub open spec fn words_for(len: nat) -> nat {
    (len + 7) / 8
}

/// Byte `i` of `data`, and zero behind its end.
pub open spec fn padded_byte(data: Seq<u8>, i: int) -> u8 {
    if 0 <= i < data.len() {
        data[i]
    } else {
        0
    }
}

/// The words that store `data` at `addr`: one after the other, the last
/// one padded with zeros.
pub open spec fn stores(pokes: Seq<Poke>, addr: u64, data: Seq<u8>) -> bool {
    &&& pokes.len() == words_for(data.len())
    &&& forall|k: int|
        #![trigger pokes[k]]
        0 <= k < pokes.len() ==> {
            &&& pokes[k].addr == addr + 8 * k
            &&& forall|j: int|
                0 <= j < 8 ==> #[trigger] bytes::word_bytes(pokes[k].word)[j] == padded_byte(
                    data,
                    8 * k + j,
                )
        }
}

/// Write bytes into the tracee, word by word. The tail of the last word
/// is zero-padded, which is safe only into scratch memory we own.
pub fn write_bytes(addr: u64, data: &[u8]) -> (pokes: Vec<Poke>)
    requires
        addr + 8 * words_for(data@.len()) <= u64::MAX,
    ensures
        stores(pokes@, addr, data@),
{
    let mut pokes: Vec<Poke> = Vec::new();
    let mut at: u64 = addr;
    let mut i: usize = 0;
    while i < data.len()
        invariant
            addr + 8 * words_for(data@.len()) <= u64::MAX,
            i == 8 * pokes@.len() || i == data@.len(),
            i <= data@.len(),
            pokes@.len() == words_for(i as nat),
            at == addr + 8 * pokes@.len(),
            forall|k: int|
                #![trigger pokes@[k]]
                0 <= k < pokes@.len() ==> {
                    &&& pokes@[k].addr == addr + 8 * k
                    &&& forall|j: int|
                        0 <= j < 8 ==> #[trigger] bytes::word_bytes(pokes@[k].word)[j]
                            == padded_byte(data@, 8 * k + j)
                },
        decreases data@.len() - i,
    {
        let left: usize = data.len() - i;
        let b0: u8 = data[i];
        let b1: u8 = if left > 1 {
            data[i + 1]
        } else {
            0
        };
        let b2: u8 = if left > 2 {
            data[i + 2]
        } else {
            0
        };
        let b3: u8 = if left > 3 {
            data[i + 3]
        } else {
            0
        };
        let b4: u8 = if left > 4 {
            data[i + 4]
        } else {
            0
        };
        let b5: u8 = if left > 5 {
            data[i + 5]
        } else {
            0
        };
        let b6: u8 = if left > 6 {
            data[i + 6]
        } else {
            0
        };
        let b7: u8 = if left > 7 {
            data[i + 7]
        } else {
            0
        };
        let word: u64 = join_word(b0, b1, b2, b3, b4, b5, b6, b7);
        let ghost k = pokes@.len();
        assert forall|j: int| 0 <= j < 8 implies #[trigger] bytes::word_bytes(word)[j]
            == padded_byte(data@, 8 * k + j) by {}
        pokes.push(Poke { addr: at, word });
        at = at + 8;
        if left > 8 {
            i = i + 8;
        } else {
            i = data.len();
        }
    }
    pokes
}

/// Memory after a word was stored.
pub open spec fn poked(mem: spec_fn(int) -> u8, p: Poke) -> spec_fn(int) -> u8 {
    |a: int|
        if p.addr <= a < p.addr + 8 {
            bytes::word_bytes(p.word)[a - p.addr]
        } else {
            mem(a)
        }
}

/// Memory after words were stored one after the other.
pub open spec fn poked_all(mem: spec_fn(int) -> u8, pokes: Seq<Poke>) -> spec_fn(int) -> u8
    decreases pokes.len(),
{
    if pokes.len() == 0 {
        mem
    } else {
        poked(poked_all(mem, pokes.drop_last()), pokes.last())
    }
}

proof fn lemma_poked_prefix(mem: spec_fn(int) -> u8, pokes: Seq<Poke>, addr: u64, data: Seq<u8>, n: int)
    requires
        stores(pokes, addr, data),
        0 <= n <= pokes.len(),
    ensures
        forall|a: int| addr <= a < addr + 8 * n ==> #[trigger] poked_all(mem, pokes.take(n))(a)
            == padded_byte(data, a - addr),
        forall|a: int| !(addr <= a < addr + 8 * n) ==> #[trigger] poked_all(mem, pokes.take(n))(a)
            == mem(a),
    decreases n,
{
    if n > 0 {
        lemma_poked_prefix(mem, pokes, addr, data, n - 1);
        assert(pokes.take(n).drop_last() =~= pokes.take(n - 1));
        let p = pokes[n - 1];
        assert(pokes.take(n).last() == p);
        assert forall|a: int| addr <= a < addr + 8 * n implies #[trigger] poked_all(
            mem,
            pokes.take(n),
        )(a) == padded_byte(data, a - addr) by {
            if p.addr <= a {
                let j = a - p.addr;
                assert(bytes::word_bytes(p.word)[j] == padded_byte(data, 8 * (n - 1) + j));
            } else {
                assert(poked_all(mem, pokes.take(n - 1))(a) == padded_byte(data, a - addr));
            }
        }
        assert forall|a: int| !(addr <= a < addr + 8 * n) implies #[trigger] poked_all(
            mem,
            pokes.take(n),
        )(a) == mem(a) by {
            assert(poked_all(mem, pokes.take(n - 1))(a) == mem(a));
        }
    } else {
        assert(pokes.take(0).len() == 0);
    }
}

/// Storing the words of `data` makes `data` readable at its address, with
/// zeros up to the end of the last word, and leaves every other byte of
/// memory alone.
pub proof fn written_bytes_read_back(
    mem: spec_fn(int) -> u8,
    pokes: Seq<Poke>,
    addr: u64,
    data: Seq<u8>,
)
    requires
        stores(pokes, addr, data),
    ensures
        forall|i: int| 0 <= i < data.len() ==> poked_all(mem, pokes)(addr + i) == #[trigger] data[i],
        forall|i: int|
            data.len() <= i < 8 * words_for(data.len()) ==> #[trigger] poked_all(mem, pokes)(
                addr + i,
            ) == 0,
        forall|a: int|
            !(addr <= a < addr + 8 * words_for(data.len())) ==> #[trigger] poked_all(mem, pokes)(a)
                == mem(a),
{
    let n = pokes.len() as int;
    lemma_poked_prefix(mem, pokes, addr, data, n);
    assert(pokes.take(n) =~= pokes);
    assert forall|i: int| 0 <= i < data.len() implies poked_all(mem, pokes)(addr + i)
        == #[trigger] data[i] by {
        assert(poked_all(mem, pokes)(addr + i) == padded_byte(data, i));
    }
}

// ---------------------------------------------------------------------
// Laws of what the calls bring back
// ---------------------------------------------------------------------

/// A ptrace request has failed exactly when it returned -1, and then for
/// its error number; a thread that cannot be seized is named where it is
/// not permitted or not there.
pub proof fn minus_one_is_failure(tid: nat, ret: i64, errno: i32)
    requires
        tid <= i32::MAX,
    ensures
        request_meaning(ret, errno) is Ok <==> ret != -1,
        seize_meaning(tid as i32, ret, errno) is Ok <==> ret != -1,
        ret == -1 ==> request_meaning(ret, errno) == Err::<(), ErrorView>(ErrorView::Os(errno)),
        ret == -1 ==> seize_meaning(tid as i32, ret, 1) == Err::<(), ErrorView>(
            ErrorView::Msg(
                "cannot attach to "@ + text::decimal(tid)
                    + ": permission denied (already traced, or ptrace_scope restrictions)"@,
            ),
        ),
        ret == -1 ==> seize_meaning(tid as i32, ret, 3) == Err::<(), ErrorView>(
            ErrorView::Msg("no such process or thread: "@ + text::decimal(tid)),
        ),
        ret == -1 && errno != 1 && errno != 3 ==> seize_meaning(tid as i32, ret, errno) == Err::<
            (),
            ErrorView,
        >(ErrorView::Os(errno)),
{
}

/// Every word can be read, that of all ones too: a word whose peek left no
/// error comes back as it is, all 64 bits of it, and only -1 with an error
/// is a failure.
pub proof fn every_word_can_be_read(w: u64, ret: i64, errno: i32)
    ensures
        ret == w as i64 && (errno == 0 || ret != -1) ==> word_meaning(ret, errno) == Ok::<
            u64,
            ErrorView,
        >(w),
        ret == -1 && errno != 0 ==> word_meaning(ret, errno) == Err::<u64, ErrorView>(
            ErrorView::Os(errno),
        ),
{
    assert((w as i64) as u64 == w) by (bit_vector);
}

/// What the kernel says about a syscall stop is believed: 1 and 3 are an
/// entry, 2 is an exit, anything else is not known; the registers are
/// looked at only where the kernel says nothing.
pub proof fn kernel_tells_the_stop<A: Arch>(op: u8, regs: Option<Regs<A::Raw>>, raw: Regs<A::Raw>)
    ensures
        stop_kind::<A>(Some(op), regs) == SyscallStop::Entry <==> op == 1 || op == 3,
        stop_kind::<A>(Some(op), regs) == SyscallStop::Exit <==> op == 2,
        stop_kind::<A>(None, Some(raw)) == A::guess(raw.0),
        stop_kind::<A>(None, None) == SyscallStop::Unknown,
{
}

/// A wait status that the kernel composes of an event, a signal and the
/// mark of a stop is a stop: a syscall stop where the signal is SIGTRAP
/// with bit 7 set, an event stop where it is SIGTRAP and there is an event,
/// and in every other case, group stops among them, a stop by that signal.
/// Every status without the mark is that of a thread that is gone, whatever
/// it exited with or was killed by.
pub proof fn every_status_is_classified(event: i32, sig: i32, code: i32, status: i32)
    requires
        0 <= event < 0x8000,
        0 <= sig < 0x100,
        0 <= code < 0x100,
    ensures
        stop_of((event << 16) | (sig << 8) | 0x7f) == if sig == 0x85 {
            Stop::Syscall
        } else if sig == 5 && event != 0 {
            Stop::Event(event)
        } else {
            Stop::Signal(sig)
        },
        stop_of(code << 8) == Stop::Exited,
        0 < sig < 0x7f ==> stop_of(sig) == Stop::Exited && stop_of(sig | 0x80) == Stop::Exited,
        stop_of(status) == Stop::Exited <==> status & 0x7f != 0x7f,
{
    let s: i32 = (event << 16) | (sig << 8) | 0x7f;
    assert(s & 0x7f == 0x7f && (s >> 8) & 0xff == sig && s >> 16 == event) by (bit_vector)
        requires
            0 <= event < 0x8000,
            0 <= sig < 0x100,
            s == (event << 16) | (sig << 8) | 0x7f,
    ;
    let t: i32 = code << 8;
    assert(t & 0x7f == 0) by (bit_vector)
        requires
            t == code << 8,
    ;
    if 0 < sig < 0x7f {
        let u: i32 = sig | 0x80;
        assert(sig & 0x7f != 0x7f && u & 0x7f != 0x7f) by (bit_vector)
            requires
                0 < sig < 0x7f,
                u == sig | 0x80,
        ;
    }
}

/// A wait that was interrupted is made again; one that failed otherwise has
/// failed; one that did not fail brings the thread's stop, and without a
/// time limit nothing else.
pub proof fn waits_bring_the_stop(ret: i32, errno: i32, status: i32)
    ensures
        ret != -1 ==> wait_meaning(ret, errno, status) == WaitStep::Got(stop_of(status)),
        ret == -1 && errno == 4 ==> wait_meaning(ret, errno, status) == WaitStep::Again,
        ret == -1 && errno != 4 ==> wait_meaning(ret, errno, status) == WaitStep::Failed(errno),
{
}

/// A wait with a time limit takes the stop of its own thread whenever it
/// comes, late as it may be, gives up only once the deadline has been
/// reached with nothing there, and till then looks again every five
/// milliseconds.
pub proof fn time_limit_is_kept(
    tid: i32,
    ret: i32,
    errno: i32,
    status: i32,
    now: u64,
    deadline: u64,
)
    requires
        tid != -1,
    ensures
        ({
            let r = look_meaning(tid, ret, errno, status, now, deadline);
            &&& ret == tid ==> r == WaitStep::Got(stop_of(status))
            &&& ret == -1 && errno == 4 ==> r == WaitStep::Again
            &&& ret == -1 && errno != 4 ==> r == WaitStep::Failed(errno)
            &&& ret != -1 && ret != tid && now < deadline ==> r == WaitStep::Sleep(5)
            &&& ret != -1 && ret != tid && now >= deadline ==> r == WaitStep::TimedOut
        }),
{
}

} // verus!
