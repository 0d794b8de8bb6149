//! x86_64 backend. The syscall number lives in `orig_rax`, arguments in
//! rdi/rsi/rdx/r10/r8/r9, return value in `rax`, dup2 for fd redirection.
//!
//! At a syscall-entry stop, `rip` points just past the 2-byte `syscall`
//! instruction and `rax` is -ENOSYS; the fixup rewinds `rip` and moves
//! the syscall number into `rax` so a full restore re-executes the
//! original syscall.

use vstd::prelude::*;

use super::{Arch, Regs, SyscallStop, Syscalls};
use crate::abi::ENOSYS;

verus! {

#[derive(Debug, Clone, Copy, PartialEq, Eq, Structural)]
pub struct X86_64;

/// The general registers, in the order in which the kernel hands them out.
#[derive(Debug, Clone, Copy, PartialEq, Eq, Structural)]
pub struct RawRegs {
    pub r15: u64,
    pub r14: u64,
    pub r13: u64,
    pub r12: u64,
    pub rbp: u64,
    pub rbx: u64,
    pub r11: u64,
    pub r10: u64,
    pub r9: u64,
    pub r8: u64,
    pub rax: u64,
    pub rcx: u64,
    pub rdx: u64,
    pub rsi: u64,
    pub rdi: u64,
    pub orig_rax: u64,
    pub rip: u64,
    pub cs: u64,
    pub eflags: u64,
    pub rsp: u64,
    pub ss: u64,
    pub fs_base: u64,
    pub gs_base: u64,
    pub ds: u64,
    pub es: u64,
    pub fs: u64,
    pub gs: u64,
}

pub const NR_DUP2: u64 = 33;
pub const NR_MMAP: u64 = 9;
pub const NR_MUNMAP: u64 = 11;
pub const NR_OPENAT: u64 = 257;
pub const NR_IOCTL: u64 = 16;
pub const NR_SETSID: u64 = 112;
pub const NR_CLOSE: u64 = 3;
pub const NR_CLONE: u64 = 56;
pub const NR_SETPGID: u64 = 109;
pub const NR_KILL: u64 = 62;
pub const NR_WAIT4: u64 = 61;
pub const NR_RT_SIGACTION: u64 = 13;
pub const NR_SOCKET: u64 = 41;
pub const NR_CONNECT: u64 = 42;
pub const NR_SENDMSG: u64 = 46;

/// Length of the `syscall` instruction.
pub const SYSCALL_LEN: u64 = 2;

impl Arch for X86_64 {
    type Raw = RawRegs;

    open spec fn ip(r: RawRegs) -> u64 {
        r.rip
    }

    open spec fn with_ip(r: RawRegs, ip: u64) -> RawRegs {
        RawRegs { rip: ip, ..r }
    }

    open spec fn args(r: RawRegs) -> Seq<u64> {
        seq![r.rdi, r.rsi, r.rdx, r.r10, r.r8, r.r9]
    }

    open spec fn with_args(r: RawRegs, args: Seq<u64>) -> RawRegs {
        RawRegs {
            rdi: args[0],
            rsi: args[1],
            rdx: args[2],
            r10: args[3],
            r8: args[4],
            r9: args[5],
            ..r
        }
    }

    open spec fn with_nr(r: RawRegs, nr: u64) -> RawRegs {
        RawRegs { orig_rax: nr, ..r }
    }

    open spec fn nr_word(nr: u64) -> Option<i32> {
        None
    }

    open spec fn entry_nr(r: RawRegs, word: i32) -> u64 {
        r.orig_rax
    }

    open spec fn entry_shape(r: RawRegs, word: i32) -> bool {
        true
    }

    open spec fn issued_nr(r: RawRegs) -> u64 {
        r.rax
    }

    open spec fn return_register(r: RawRegs) -> u64 {
        r.rax
    }

    open spec fn result(r: RawRegs) -> i64 {
        r.rax as i64
    }

    open spec fn insn_len() -> u64 {
        SYSCALL_LEN
    }

    open spec fn fixed(r: RawRegs) -> RawRegs {
        RawRegs { rip: (r.rip - SYSCALL_LEN) as u64, rax: r.orig_rax, ..r }
    }

    /// On syscall entry the kernel sets `rax` to -ENOSYS; at exit stops it
    /// holds the return value.
    open spec fn guess(r: RawRegs) -> SyscallStop {
        if r.rax as i64 == -ENOSYS {
            SyscallStop::Entry
        } else {
            SyscallStop::Exit
        }
    }

    open spec fn numbers() -> Syscalls {
        Syscalls {
            dup: NR_DUP2,
            mmap: NR_MMAP,
            munmap: NR_MUNMAP,
            openat: NR_OPENAT,
            ioctl: NR_IOCTL,
            setsid: NR_SETSID,
            close: NR_CLOSE,
            clone: NR_CLONE,
            setpgid: NR_SETPGID,
            kill: NR_KILL,
            wait4: NR_WAIT4,
            rt_sigaction: NR_RT_SIGACTION,
            socket: NR_SOCKET,
            connect: NR_CONNECT,
            sendmsg: NR_SENDMSG,
        }
    }

    open spec fn title() -> Seq<char> {
        "x86_64"@
    }

    proof fn injection_law(r: RawRegs, nr: u64, args: Seq<u64>, word: i32) {
        assert(Self::args(Self::with_args(Self::with_nr(r, nr), args)) =~= args);
    }

    proof fn rewind_law(r: RawRegs, ip: u64) {
    }

    proof fn fixup_law(r: RawRegs, word: i32) {
    }

    proof fn number_word_law(r: RawRegs, word: i32, other: i32) {
    }

    proof fn numbers_law() {
    }

    proof fn result_law(r: RawRegs, v: i64) {
        whole_return_register_is_the_result(r, v);
    }

    fn name(&self) -> (r: &'static str) {
        "x86_64"
    }

    fn save_fixup(&self, regs: &mut Regs<RawRegs>) {
        regs.0.rip = regs.0.rip - SYSCALL_LEN;
        regs.0.rax = regs.0.orig_rax;
    }

    fn syscall_insn_len(&self) -> (r: u64) {
        SYSCALL_LEN
    }

    fn instruction_pointer(&self, regs: &Regs<RawRegs>) -> (r: u64) {
        regs.0.rip
    }

    fn has_nr_word(&self) -> (r: bool) {
        false
    }

    fn get_syscall_nr(&self, regs: &Regs<RawRegs>, word: i32) -> (r: u64) {
        regs.0.orig_rax
    }

    fn set_syscall_nr(&self, regs: &mut Regs<RawRegs>, nr: u64) -> (r: Option<i32>) {
        regs.0.orig_rax = nr;
        None
    }

    fn restore_syscall_nr(&self, saved_nr: u64) -> (r: Option<i32>) {
        // The number is part of the general register set (rax/orig_rax),
        // already restored by the full register restore.
        None
    }

    fn set_syscall_args(&self, regs: &mut Regs<RawRegs>, args: [u64; 6]) {
        regs.0.rdi = args[0];
        regs.0.rsi = args[1];
        regs.0.rdx = args[2];
        regs.0.r10 = args[3];
        regs.0.r8 = args[4];
        regs.0.r9 = args[5];
    }

    fn syscall_result(&self, regs: &Regs<RawRegs>) -> (r: i64) {
        regs.0.rax as i64
    }

    fn restore_ip(&self, regs: &mut Regs<RawRegs>, saved: &Regs<RawRegs>) {
        regs.0.rip = saved.0.rip;
    }

    fn dup_syscall(&self, oldfd: u64, newfd: u64) -> (r: (u64, [u64; 6])) {
        (NR_DUP2, [oldfd, newfd, 0, 0, 0, 0])
    }

    fn nr_mmap(&self) -> (r: u64) {
        NR_MMAP
    }

    fn nr_munmap(&self) -> (r: u64) {
        NR_MUNMAP
    }

    fn nr_openat(&self) -> (r: u64) {
        NR_OPENAT
    }

    fn nr_ioctl(&self) -> (r: u64) {
        NR_IOCTL
    }

    fn nr_setsid(&self) -> (r: u64) {
        NR_SETSID
    }

    fn nr_close(&self) -> (r: u64) {
        NR_CLOSE
    }

    fn nr_clone(&self) -> (r: u64) {
        NR_CLONE
    }

    fn nr_setpgid(&self) -> (r: u64) {
        NR_SETPGID
    }

    fn nr_kill(&self) -> (r: u64) {
        NR_KILL
    }

    fn nr_wait4(&self) -> (r: u64) {
        NR_WAIT4
    }

    fn nr_rt_sigaction(&self) -> (r: u64) {
        NR_RT_SIGACTION
    }

    fn nr_socket(&self) -> (r: u64) {
        NR_SOCKET
    }

    fn nr_connect(&self) -> (r: u64) {
        NR_CONNECT
    }

    fn nr_sendmsg(&self) -> (r: u64) {
        NR_SENDMSG
    }

    fn fallback_syscall_stop(&self, regs: &Regs<RawRegs>) -> (r: SyscallStop) {
        if regs.0.rax as i64 == -(ENOSYS as i64) {
            SyscallStop::Entry
        } else {
            SyscallStop::Exit
        }
    }
}

// ---------------------------------------------------------------------
// Laws
// ---------------------------------------------------------------------

/// The result of a call is the whole return register as a signed number:
/// whatever 64-bit value the kernel returned comes back, large addresses
/// and negative error numbers alike.
pub proof fn whole_return_register_is_the_result(r: RawRegs, v: i64)
    requires
        r.rax == v as u64,
    ensures
        X86_64::result(r) == v,
{
    assert((v as u64) as i64 == v) by (bit_vector);
}

/// Two states with different return registers have different results, and
/// no other register has a say in it.
pub proof fn result_is_the_return_register_alone(r: RawRegs, q: RawRegs)
    ensures
        X86_64::result(r) == X86_64::result(q) <==> r.rax == q.rax,
        X86_64::result(r) >= 0 <==> r.rax < 0x8000_0000_0000_0000,
        X86_64::result(r) >= 0 ==> X86_64::result(r) == r.rax,
        X86_64::result(r) < 0 ==> X86_64::result(r) == r.rax - 0x1_0000_0000_0000_0000,
{
    let a = r.rax;
    let b = q.rax;
    assert((a as i64 == b as i64) == (a == b)) by (bit_vector);
    assert(a < 0x8000_0000_0000_0000 ==> a as i64 == a) by (bit_vector);
    assert(a >= 0x8000_0000_0000_0000 ==> a as i64 == a - 0x1_0000_0000_0000_0000)
        by (bit_vector);
}

/// A stop is taken for an entry exactly when the return register holds
/// -38, the error number that the kernel puts there before a call runs.
pub proof fn entry_is_guessed_by_the_pending_error(r: RawRegs, v: i64)
    requires
        r.rax == v as u64,
    ensures
        X86_64::guess(r) == SyscallStop::Entry <==> v == -38,
        X86_64::guess(r) == SyscallStop::Exit <==> v != -38,
{
    whole_return_register_is_the_result(r, v);
}

/// Each change of a register state writes the registers that it is for,
/// and leaves every other register as it was.
pub proof fn changes_touch_their_registers_only(
    r: RawRegs,
    ip: u64,
    nr: u64,
    word: i32,
    args: Seq<u64>,
)
    requires
        args.len() == 6,
        r.rip >= 2,
    ensures
        X86_64::ip(r) == r.rip,
        X86_64::args(r).len() == 6,
        X86_64::args(r)[0] == r.rdi && X86_64::args(r)[1] == r.rsi && X86_64::args(r)[2] == r.rdx,
        X86_64::args(r)[3] == r.r10 && X86_64::args(r)[4] == r.r8 && X86_64::args(r)[5] == r.r9,
        X86_64::entry_nr(r, word) == r.orig_rax,
        X86_64::issued_nr(r) == r.rax,
        X86_64::nr_word(nr) is None,
        X86_64::with_ip(r, ip) == (RawRegs { rip: ip, ..r }),
        X86_64::with_nr(r, nr) == (RawRegs { orig_rax: nr, ..r }),
        ({
            let t = X86_64::with_args(r, args);
            &&& t.rdi == args[0] && t.rsi == args[1] && t.rdx == args[2]
            &&& t.r10 == args[3] && t.r8 == args[4] && t.r9 == args[5]
            &&& t == (RawRegs {
                rdi: t.rdi,
                rsi: t.rsi,
                rdx: t.rdx,
                r10: t.r10,
                r8: t.r8,
                r9: t.r9,
                ..r
            })
        }),
        ({
            let t = X86_64::fixed(r);
            &&& t.rip + 2 == r.rip
            &&& t.rax == r.orig_rax
            &&& t == (RawRegs { rip: t.rip, rax: t.rax, ..r })
        }),
{
}

/// The syscall numbers are those of the architecture.
pub proof fn syscall_numbers_of_the_architecture()
    ensures
        X86_64::numbers() == (Syscalls {
            dup: 33,
            mmap: 9,
            munmap: 11,
            openat: 257,
            ioctl: 16,
            setsid: 112,
            close: 3,
            clone: 56,
            setpgid: 109,
            kill: 62,
            wait4: 61,
            rt_sigaction: 13,
            socket: 41,
            connect: 42,
            sendmsg: 46,
        }),
        X86_64::title() == "x86_64"@,
{
}

} // verus!
