//! Architecture abstraction for ptrace-based syscall injection.
//!
//! The hijack engine and the injection plan are architecture-independent.
//! Everything that touches register layouts, syscall numbers, or calling
//! conventions lives behind this module. A new architecture is one more
//! file here; nothing above this layer changes.
//!
//! The injection contract:
//!
//! 1. At a syscall-entry stop the register state is captured and
//!    [`Arch::save_fixup`] is applied, so that restoring it later
//!    re-executes the original syscall (x86_64: `rip -= 2`,
//!    `rax = orig_rax`; aarch64: `pc -= 4`).
//! 2. Each injected syscall only replaces the syscall number and the
//!    argument registers; after it runs just the instruction pointer is
//!    restored, so the next resume re-enters at the same syscall
//!    instruction. That re-entry is immediately overwritten by the next
//!    injection and never dispatches.
//! 3. At the end the full saved state is restored and the original
//!    syscall finally runs.

use vstd::prelude::*;

pub mod aarch64;
pub mod x86_64;

verus! {

/// What kind of syscall stop a tracee is sitting in, when the kernel can
/// tell (PTRACE_GET_SYSCALL_INFO) or a heuristic can guess.
#[derive(Debug, Clone, Copy, PartialEq, Eq, Structural)]
pub enum SyscallStop {
    Entry,
    Exit,
    Unknown,
}

/// The CPU register state of a tracee, in the layout of its architecture.
#[derive(Debug, Clone, Copy)]
pub struct Regs<R>(pub R);

/// The syscall numbers that injected calls use.
#[derive(Debug, Clone, Copy, PartialEq, Eq, Structural)]
pub struct Syscalls {
    /// dup2 where it exists, dup3 elsewhere.
    pub dup: u64,
    pub mmap: u64,
    pub munmap: u64,
    pub openat: u64,
    pub ioctl: u64,
    pub setsid: u64,
    pub close: u64,
    pub clone: u64,
    pub setpgid: u64,
    pub kill: u64,
    pub wait4: u64,
    pub rt_sigaction: u64,
    pub socket: u64,
    pub connect: u64,
    pub sendmsg: u64,
}

impl Syscalls {
    /// The calls that change which file descriptors are open are told from
    /// each other, and from the other calls of a redirection plan.
    pub open spec fn tell_fds_apart(self) -> bool {
        &&& self.openat != self.dup && self.openat != self.close && self.dup != self.close
        &&& forall|nr: u64| #[trigger]
            self.keeps_fds(nr) ==> nr != self.openat && nr != self.dup && nr != self.close
    }

    /// All of them.
    pub open spec fn listed(self) -> Seq<u64> {
        seq![
            self.dup,
            self.mmap,
            self.munmap,
            self.openat,
            self.ioctl,
            self.setsid,
            self.close,
            self.clone,
            self.setpgid,
            self.kill,
            self.wait4,
            self.rt_sigaction,
            self.socket,
            self.connect,
            self.sendmsg,
        ]
    }

    /// No two calls share a number, and each number fits a number word.
    pub open spec fn tell_apart(self) -> bool {
        &&& self.listed().no_duplicates()
        &&& forall|i: int| 0 <= i < 15 ==> #[trigger] self.listed()[i] <= i32::MAX
    }

    /// The other calls of a redirection plan.
    pub open spec fn keeps_fds(self, nr: u64) -> bool {
        nr == self.mmap || nr == self.munmap || nr == self.ioctl || nr == self.setsid || nr
            == self.setpgid || nr == self.kill || nr == self.wait4 || nr == self.rt_sigaction
    }
}

/// A processor architecture that tracees can run on.
///
/// Some architectures carry the number of the current syscall in the
/// general registers, others in a register set of its own that holds one
/// `int`; the latter is called the number word here.
pub trait Arch {
    type Raw: Copy;

    /// The instruction pointer.
    spec fn ip(r: Self::Raw) -> u64;

    /// The state with another instruction pointer and nothing else changed.
    spec fn with_ip(r: Self::Raw, ip: u64) -> Self::Raw;

    /// The six argument registers.
    spec fn args(r: Self::Raw) -> Seq<u64>;

    /// The state with other arguments and nothing else changed.
    spec fn with_args(r: Self::Raw, args: Seq<u64>) -> Self::Raw;

    /// The state that selects the syscall `nr` at an entry stop, with
    /// nothing else changed.
    spec fn with_nr(r: Self::Raw, nr: u64) -> Self::Raw;

    /// What the number word must hold to select `nr` at an entry stop,
    /// where the architecture has such a word.
    spec fn nr_word(nr: u64) -> Option<i32>;

    /// The syscall that an entry stop is about to dispatch.
    spec fn entry_nr(r: Self::Raw, word: i32) -> u64;

    /// Whether the registers and the number word of an entry stop fit
    /// together, as the processor leaves them.
    spec fn entry_shape(r: Self::Raw, word: i32) -> bool;

    /// The syscall that the syscall instruction makes, when it is executed
    /// in this state.
    spec fn issued_nr(r: Self::Raw) -> u64;

    /// The register that the kernel returns a syscall's value in.
    spec fn return_register(r: Self::Raw) -> u64;

    /// The return value of the syscall that just ran.
    spec fn result(r: Self::Raw) -> i64;

    /// Length of the syscall instruction.
    spec fn insn_len() -> u64;

    /// The state to restore later, made from one of an entry stop.
    spec fn fixed(r: Self::Raw) -> Self::Raw;

    spec fn guess(r: Self::Raw) -> SyscallStop;

    spec fn numbers() -> Syscalls;

    spec fn title() -> Seq<char>;

    /// What an injection into an entry stop leaves alone, and what the stop
    /// then dispatches.
    proof fn injection_law(r: Self::Raw, nr: u64, args: Seq<u64>, word: i32)
        requires
            args.len() == 6,
        ensures
            Self::args(Self::with_args(Self::with_nr(r, nr), args)) == args,
            Self::ip(Self::with_args(Self::with_nr(r, nr), args)) == Self::ip(r),
            nr <= i32::MAX ==> Self::entry_nr(
                Self::with_args(Self::with_nr(r, nr), args),
                match Self::nr_word(nr) {
                    Some(w) => w,
                    None => word,
                },
            ) == nr,
    ;

    /// Moving the instruction pointer moves nothing else that a syscall
    /// depends on.
    proof fn rewind_law(r: Self::Raw, ip: u64)
        ensures
            Self::ip(Self::with_ip(r, ip)) == ip,
            Self::args(Self::with_ip(r, ip)) == Self::args(r),
            Self::issued_nr(Self::with_ip(r, ip)) == Self::issued_nr(r),
    ;

    /// Executing the instruction that the fixed state points at makes the
    /// call that the entry stop was about to dispatch.
    proof fn fixup_law(r: Self::Raw, word: i32)
        requires
            Self::insn_len() <= Self::ip(r),
            Self::entry_shape(r, word),
        ensures
            Self::ip(Self::fixed(r)) == Self::ip(r) - Self::insn_len(),
            Self::args(Self::fixed(r)) == Self::args(r),
            Self::issued_nr(Self::fixed(r)) == Self::entry_nr(r, word),
            Self::entry_nr(Self::fixed(r), word) == Self::entry_nr(r, word),
    ;

    /// Writing the number word of the captured syscall selects that
    /// syscall, whatever the word held in between.
    proof fn number_word_law(r: Self::Raw, word: i32, other: i32)
        requires
            Self::entry_shape(r, word),
        ensures
            Self::entry_nr(
                r,
                match Self::nr_word(Self::entry_nr(r, word)) {
                    Some(w) => w,
                    None => other,
                },
            ) == Self::entry_nr(r, word),
    ;

    /// Different calls have different numbers.
    proof fn numbers_law()
        ensures
            Self::numbers().tell_fds_apart(),
            Self::numbers().tell_apart(),
    ;

    /// The value that the kernel returned is the result, all 64 bits of it.
    proof fn result_law(r: Self::Raw, v: i64)
        requires
            Self::return_register(r) == v as u64,
        ensures
            Self::result(r) == v,
    ;

    fn name(&self) -> (r: &'static str)
        ensures
            r@ == Self::title(),
    ;

    /// Adjust a register state captured at a syscall-entry stop so that
    /// restoring it later re-executes the original syscall.
    fn save_fixup(&self, regs: &mut Regs<Self::Raw>)
        requires
            Self::insn_len() <= Self::ip(old(regs).0),
        ensures
            final(regs).0 == Self::fixed(old(regs).0),
    ;

    /// How far the instruction pointer of an entry stop is past the
    /// syscall instruction's first byte.
    fn syscall_insn_len(&self) -> (r: u64)
        ensures
            r == Self::insn_len(),
    ;

    fn instruction_pointer(&self, regs: &Regs<Self::Raw>) -> (r: u64)
        ensures
            r == Self::ip(regs.0),
    ;

    /// Whether the current syscall's number lives in a number word.
    fn has_nr_word(&self) -> (r: bool)
        ensures
            forall|nr: u64| r == (#[trigger] Self::nr_word(nr) is Some),
    ;

    /// The syscall number the tracee is about to execute. Where there is no
    /// number word, `word` is not looked at.
    fn get_syscall_nr(&self, regs: &Regs<Self::Raw>, word: i32) -> (r: u64)
        ensures
            r == Self::entry_nr(regs.0, word),
    ;

    /// Set the syscall number for the next injected syscall; returns what
    /// to write to the number word, where there is one.
    fn set_syscall_nr(&self, regs: &mut Regs<Self::Raw>, nr: u64) -> (r: Option<i32>)
        ensures
            final(regs).0 == Self::with_nr(old(regs).0, nr),
            r == Self::nr_word(nr),
    ;

    /// What to write to the number word to restore the original syscall
    /// number captured with [`Arch::get_syscall_nr`], where there is one.
    fn restore_syscall_nr(&self, saved_nr: u64) -> (r: Option<i32>)
        ensures
            r == Self::nr_word(saved_nr),
    ;

    /// Set the syscall argument registers.
    fn set_syscall_args(&self, regs: &mut Regs<Self::Raw>, args: [u64; 6])
        ensures
            final(regs).0 == Self::with_args(old(regs).0, args@),
    ;

    /// Extract the return value of the most recently executed syscall.
    fn syscall_result(&self, regs: &Regs<Self::Raw>) -> (r: i64)
        ensures
            r == Self::result(regs.0),
    ;

    /// Point the instruction pointer at the saved address, so resuming
    /// re-executes the syscall instruction.
    fn restore_ip(&self, regs: &mut Regs<Self::Raw>, saved: &Regs<Self::Raw>)
        ensures
            final(regs).0 == Self::with_ip(old(regs).0, Self::ip(saved.0)),
    ;

    /// Syscall number and arguments for dup'ing `oldfd` onto `newfd`
    /// (dup2 where it exists, dup3 elsewhere).
    fn dup_syscall(&self, oldfd: u64, newfd: u64) -> (r: (u64, [u64; 6]))
        ensures
            r.0 == Self::numbers().dup,
            r.1@ == seq![oldfd, newfd, 0, 0, 0, 0],
    ;

    fn nr_mmap(&self) -> (r: u64)
        ensures
            r == Self::numbers().mmap,
    ;

    fn nr_munmap(&self) -> (r: u64)
        ensures
            r == Self::numbers().munmap,
    ;

    fn nr_openat(&self) -> (r: u64)
        ensures
            r == Self::numbers().openat,
    ;

    fn nr_ioctl(&self) -> (r: u64)
        ensures
            r == Self::numbers().ioctl,
    ;

    fn nr_setsid(&self) -> (r: u64)
        ensures
            r == Self::numbers().setsid,
    ;

    fn nr_close(&self) -> (r: u64)
        ensures
            r == Self::numbers().close,
    ;

    fn nr_clone(&self) -> (r: u64)
        ensures
            r == Self::numbers().clone,
    ;

    fn nr_setpgid(&self) -> (r: u64)
        ensures
            r == Self::numbers().setpgid,
    ;

    fn nr_kill(&self) -> (r: u64)
        ensures
            r == Self::numbers().kill,
    ;

    fn nr_wait4(&self) -> (r: u64)
        ensures
            r == Self::numbers().wait4,
    ;

    fn nr_rt_sigaction(&self) -> (r: u64)
        ensures
            r == Self::numbers().rt_sigaction,
    ;

    fn nr_socket(&self) -> (r: u64)
        ensures
            r == Self::numbers().socket,
    ;

    fn nr_connect(&self) -> (r: u64)
        ensures
            r == Self::numbers().connect,
    ;

    fn nr_sendmsg(&self) -> (r: u64)
        ensures
            r == Self::numbers().sendmsg,
    ;

    /// Best-effort entry/exit classification for kernels that lack
    /// PTRACE_GET_SYSCALL_INFO.
    fn fallback_syscall_stop(&self, regs: &Regs<Self::Raw>) -> (r: SyscallStop)
        ensures
            r == Self::guess(regs.0),
    ;
}

} // verus!
