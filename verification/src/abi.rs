//! Numbers of the Linux system-call interface that the library's decisions
//! depend on. All of them are the same on every supported architecture.

use vstd::prelude::*;

verus! {

pub const SIGHUP: i32 = 1;
pub const SIGTRAP: i32 = 5;
pub const SIGKILL: i32 = 9;
pub const SIGCHLD: i32 = 17;
pub const SIGSTOP: i32 = 19;

/// The handler value that ignores a signal.
pub const SIG_IGN: u64 = 1;

pub const EPERM: i32 = 1;
pub const ENOENT: i32 = 2;
pub const ESRCH: i32 = 3;
pub const EINTR: i32 = 4;
pub const EIO: i32 = 5;
pub const ENOSYS: i32 = 38;

pub const PROT_READ: i32 = 1;
pub const PROT_WRITE: i32 = 2;
pub const MAP_PRIVATE: i32 = 0x02;
pub const MAP_ANONYMOUS: i32 = 0x20;

pub const AT_FDCWD: i32 = -100;
pub const O_RDWR: i32 = 2;
pub const O_NOCTTY: i32 = 0x100;

pub const TIOCSCTTY: u64 = 0x540e;
pub const TIOCNOTTY: u64 = 0x5422;
pub const TIOCGPTN: u64 = 0x8004_5430;

pub const WNOHANG: i32 = 1;

pub const PTRACE_O_TRACESYSGOOD: i32 = 1;
pub const PTRACE_O_TRACEFORK: i32 = 2;
pub const PTRACE_EVENT_FORK: i32 = 1;

pub const AF_UNIX: i32 = 1;
pub const SOCK_DGRAM: i32 = 2;
pub const SOL_SOCKET: i32 = 1;
pub const SCM_RIGHTS: i32 = 1;

/// Size of the path in a socket address.
pub const SUN_PATH_LEN: usize = 108;

pub const STDIN_FILENO: i32 = 0;
pub const STDOUT_FILENO: i32 = 1;

/// Size of a page.
pub const PAGE_SIZE: u64 = 4096;

/// The numbers are those of the kernel's interface.
pub proof fn numbers_of_the_interface()
    ensures
        SIGHUP == 1 && SIGTRAP == 5 && SIGKILL == 9 && SIGCHLD == 17 && SIGSTOP == 19,
        SIG_IGN == 1,
        EPERM == 1 && ENOENT == 2 && ESRCH == 3 && EINTR == 4 && EIO == 5 && ENOSYS == 38,
        PROT_READ == 1 && PROT_WRITE == 2 && MAP_PRIVATE == 2 && MAP_ANONYMOUS == 32,
        AT_FDCWD == -100 && O_RDWR == 2 && O_NOCTTY == 256,
        TIOCSCTTY == 0x540e && TIOCNOTTY == 0x5422 && TIOCGPTN == 0x8004_5430,
        WNOHANG == 1,
        PTRACE_O_TRACESYSGOOD == 1 && PTRACE_O_TRACEFORK == 2 && PTRACE_EVENT_FORK == 1,
        AF_UNIX == 1 && SOCK_DGRAM == 2 && SOL_SOCKET == 1 && SCM_RIGHTS == 1,
        SUN_PATH_LEN == 108 && PAGE_SIZE == 4096,
        STDIN_FILENO == 0 && STDOUT_FILENO == 1,
{
}

} // verus!
