//! The numbers of the system-call interface against those of libc.

use reptyr::abi;
use reptyr::arch::aarch64;
use reptyr::arch::x86_64;

#[test]
fn signals_and_errors_are_those_of_libc() {
    assert_eq!(abi::SIGHUP, libc::SIGHUP);
    assert_eq!(abi::SIGTRAP, libc::SIGTRAP);
    assert_eq!(abi::SIGKILL, libc::SIGKILL);
    assert_eq!(abi::SIGCHLD, libc::SIGCHLD);
    assert_eq!(abi::SIGSTOP, libc::SIGSTOP);
    assert_eq!(abi::SIG_IGN, libc::SIG_IGN as u64);
    assert_eq!(abi::EPERM, libc::EPERM);
    assert_eq!(abi::ENOENT, libc::ENOENT);
    assert_eq!(abi::ESRCH, libc::ESRCH);
    assert_eq!(abi::EINTR, libc::EINTR);
    assert_eq!(abi::EIO, libc::EIO);
    assert_eq!(abi::ENOSYS, libc::ENOSYS);
}

#[test]
fn flags_and_requests_are_those_of_libc() {
    assert_eq!(abi::PROT_READ, libc::PROT_READ);
    assert_eq!(abi::PROT_WRITE, libc::PROT_WRITE);
    assert_eq!(abi::PROT_READ + abi::PROT_WRITE, libc::PROT_READ | libc::PROT_WRITE);
    assert_eq!(abi::MAP_PRIVATE, libc::MAP_PRIVATE);
    assert_eq!(abi::MAP_ANONYMOUS, libc::MAP_ANONYMOUS);
    assert_eq!(abi::MAP_PRIVATE + abi::MAP_ANONYMOUS, libc::MAP_PRIVATE | libc::MAP_ANONYMOUS);
    assert_eq!(abi::AT_FDCWD, libc::AT_FDCWD);
    assert_eq!(abi::O_RDWR, libc::O_RDWR);
    assert_eq!(abi::O_NOCTTY, libc::O_NOCTTY);
    assert_eq!(abi::O_RDWR + abi::O_NOCTTY, libc::O_RDWR | libc::O_NOCTTY);
    assert_eq!(abi::TIOCSCTTY, libc::TIOCSCTTY as u64);
    assert_eq!(abi::TIOCNOTTY, libc::TIOCNOTTY as u64);
    assert_eq!(abi::TIOCGPTN, libc::TIOCGPTN as u64);
    assert_eq!(abi::WNOHANG, libc::WNOHANG);
    assert_eq!(abi::PTRACE_O_TRACESYSGOOD, libc::PTRACE_O_TRACESYSGOOD);
    assert_eq!(abi::PTRACE_O_TRACEFORK, libc::PTRACE_O_TRACEFORK);
    assert_eq!(abi::PTRACE_EVENT_FORK, libc::PTRACE_EVENT_FORK);
    assert_eq!(
        abi::PTRACE_O_TRACESYSGOOD + abi::PTRACE_O_TRACEFORK,
        libc::PTRACE_O_TRACESYSGOOD | libc::PTRACE_O_TRACEFORK
    );
    assert_eq!(abi::AF_UNIX, libc::AF_UNIX);
    assert_eq!(abi::SOCK_DGRAM, libc::SOCK_DGRAM);
    assert_eq!(abi::SOL_SOCKET, libc::SOL_SOCKET);
    assert_eq!(abi::SCM_RIGHTS, libc::SCM_RIGHTS);
    assert_eq!(abi::STDIN_FILENO, libc::STDIN_FILENO);
    assert_eq!(abi::STDOUT_FILENO, libc::STDOUT_FILENO);
    let addr: libc::sockaddr_un = libc::sockaddr_un { sun_family: 0, sun_path: [0; 108] };
    assert_eq!(abi::SUN_PATH_LEN, addr.sun_path.len());
}

#[test]
fn syscall_numbers_are_those_of_the_kernel() {
    // The test runs on one architecture; the numbers of the other are those
    // of the kernel's generic table.
    assert_eq!(x86_64::NR_DUP2, libc::SYS_dup2 as u64);
    assert_eq!(x86_64::NR_MMAP, libc::SYS_mmap as u64);
    assert_eq!(x86_64::NR_MUNMAP, libc::SYS_munmap as u64);
    assert_eq!(x86_64::NR_OPENAT, libc::SYS_openat as u64);
    assert_eq!(x86_64::NR_IOCTL, libc::SYS_ioctl as u64);
    assert_eq!(x86_64::NR_SETSID, libc::SYS_setsid as u64);
    assert_eq!(x86_64::NR_CLOSE, libc::SYS_close as u64);
    assert_eq!(x86_64::NR_CLONE, libc::SYS_clone as u64);
    assert_eq!(x86_64::NR_SETPGID, libc::SYS_setpgid as u64);
    assert_eq!(x86_64::NR_KILL, libc::SYS_kill as u64);
    assert_eq!(x86_64::NR_WAIT4, libc::SYS_wait4 as u64);
    assert_eq!(x86_64::NR_RT_SIGACTION, libc::SYS_rt_sigaction as u64);
    assert_eq!(x86_64::NR_SOCKET, libc::SYS_socket as u64);
    assert_eq!(x86_64::NR_CONNECT, libc::SYS_connect as u64);
    assert_eq!(x86_64::NR_SENDMSG, libc::SYS_sendmsg as u64);
    assert_eq!(aarch64::NR_DUP3, 24);
    assert_eq!(aarch64::NR_MMAP, 222);
    assert_eq!(aarch64::NR_MUNMAP, 215);
    assert_eq!(aarch64::NR_OPENAT, 56);
    assert_eq!(aarch64::NR_IOCTL, 29);
    assert_eq!(aarch64::NR_SETSID, 157);
    assert_eq!(aarch64::NR_CLOSE, 57);
    assert_eq!(aarch64::NR_CLONE, 220);
    assert_eq!(aarch64::NR_SETPGID, 154);
    assert_eq!(aarch64::NR_KILL, 129);
    assert_eq!(aarch64::NR_WAIT4, 260);
    assert_eq!(aarch64::NR_RT_SIGACTION, 134);
    assert_eq!(aarch64::NR_SOCKET, 198);
    assert_eq!(aarch64::NR_CONNECT, 203);
    assert_eq!(aarch64::NR_SENDMSG, 211);
}
