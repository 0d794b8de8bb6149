//! aarch64 backend. The syscall number lives in a dedicated
//! NT_ARM_SYSTEM_CALL regset, arguments in x0-x5, return value in x0.
//! There is no dup2 on aarch64; dup3 with flags 0 is used instead.
//!
//! At a syscall-entry stop, `pc` points just past the 4-byte `svc`
//! instruction; the fixup rewinds it so a full restore re-executes it. The
//! instruction takes the syscall number from x8.

use vstd::prelude::*;

use super::{Arch, Regs, SyscallStop, Syscalls};

verus! {

#[derive(Debug, Clone, Copy, PartialEq, Eq, Structural)]
pub struct Aarch64;

/// The general registers, in the order in which the kernel hands them out.
#[derive(Debug, Clone, Copy, PartialEq, Eq, Structural)]
pub struct RawRegs {
    pub x0: u64,
    pub x1: u64,
    pub x2: u64,
    pub x3: u64,
    pub x4: u64,
    pub x5: u64,
    pub x6: u64,
    pub x7: u64,
    pub x8: u64,
    pub x9: u64,
    pub x10: u64,
    pub x11: u64,
    pub x12: u64,
    pub x13: u64,
    pub x14: u64,
    pub x15: u64,
    pub x16: u64,
    pub x17: u64,
    pub x18: u64,
    pub x19: u64,
    pub x20: u64,
    pub x21: u64,
    pub x22: u64,
    pub x23: u64,
    pub x24: u64,
    pub x25: u64,
    pub x26: u64,
    pub x27: u64,
    pub x28: u64,
    pub x29: u64,
    pub x30: u64,
    pub sp: u64,
    pub pc: u64,
    pub pstate: u64,
}

pub const NR_DUP3: u64 = 24;
pub const NR_MMAP: u64 = 222;
pub const NR_MUNMAP: u64 = 215;
pub const NR_OPENAT: u64 = 56;
pub const NR_IOCTL: u64 = 29;
pub const NR_SETSID: u64 = 157;
pub const NR_CLOSE: u64 = 57;
pub const NR_CLONE: u64 = 220;
pub const NR_SETPGID: u64 = 154;
pub const NR_KILL: u64 = 129;
pub const NR_WAIT4: u64 = 260;
pub const NR_RT_SIGACTION: u64 = 134;
pub const NR_SOCKET: u64 = 198;
pub const NR_CONNECT: u64 = 203;
pub const NR_SENDMSG: u64 = 211;

/// Length of the `svc` instruction.
pub const SVC_LEN: u64 = 4;

impl Arch for Aarch64 {
    type Raw = RawRegs;

    open spec fn ip(r: RawRegs) -> u64 {
        r.pc
    }

    open spec fn with_ip(r: RawRegs, ip: u64) -> RawRegs {
        RawRegs { pc: ip, ..r }
    }

    open spec fn args(r: RawRegs) -> Seq<u64> {
        seq![r.x0, r.x1, r.x2, r.x3, r.x4, r.x5]
    }

    open spec fn with_args(r: RawRegs, args: Seq<u64>) -> RawRegs {
        RawRegs {
            x0: args[0],
            x1: args[1],
            x2: args[2],
            x3: args[3],
            x4: args[4],
            x5: args[5],
            ..r
        }
    }

    open spec fn with_nr(r: RawRegs, nr: u64) -> RawRegs {
        r
    }

    open spec fn nr_word(nr: u64) -> Option<i32> {
        Some(nr as i32)
    }

    open spec fn entry_nr(r: RawRegs, word: i32) -> u64 {
        word as u64
    }

    open spec fn entry_shape(r: RawRegs, word: i32) -> bool {
        0 <= word && r.x8 == word
    }

    open spec fn issued_nr(r: RawRegs) -> u64 {
        r.x8
    }

    open spec fn return_register(r: RawRegs) -> u64 {
        r.x0
    }

    open spec fn result(r: RawRegs) -> i64 {
        r.x0 as i64
    }

    open spec fn insn_len() -> u64 {
        SVC_LEN
    }

    open spec fn fixed(r: RawRegs) -> RawRegs {
        RawRegs { pc: (r.pc - SVC_LEN) as u64, ..r }
    }

    /// There is no reliable register-level heuristic on aarch64.
    open spec fn guess(r: RawRegs) -> SyscallStop {
        SyscallStop::Unknown
    }

    open spec fn numbers() -> Syscalls {
        Syscalls {
            dup: NR_DUP3,
            mmap: NR_MMAP,
            munmap: NR_MUNMAP,
            openat: NR_OPENAT,
            ioctl: NR_IOCTL,
            setsid: NR_SETSID,
            close: NR_CLOSE,
            clone: NR_CLONE,
            setpgid: NR_SETPGID,
            kill: NR_KILL,
            wait4: NR_WAIT4,
            rt_sigaction: NR_RT_SIGACTION,
            socket: NR_SOCKET,
            connect: NR_CONNECT,
            sendmsg: NR_SENDMSG,
        }
    }

    open spec fn title() -> Seq<char> {
        "aarch64"@
    }

    proof fn injection_law(r: RawRegs, nr: u64, args: Seq<u64>, word: i32) {
        assert(Self::args(Self::with_args(Self::with_nr(r, nr), args)) =~= args);
    }

    proof fn rewind_law(r: RawRegs, ip: u64) {
    }

    proof fn fixup_law(r: RawRegs, word: i32) {
    }

    proof fn number_word_law(r: RawRegs, word: i32, other: i32) {
    }

    proof fn numbers_law() {
    }

    proof fn result_law(r: RawRegs, v: i64) {
        whole_return_register_is_the_result(r, v);
    }

    fn name(&self) -> (r: &'static str) {
        "aarch64"
    }

    fn save_fixup(&self, regs: &mut Regs<RawRegs>) {
        regs.0.pc = regs.0.pc - SVC_LEN;
    }

    fn syscall_insn_len(&self) -> (r: u64) {
        SVC_LEN
    }

    fn instruction_pointer(&self, regs: &Regs<RawRegs>) -> (r: u64) {
        regs.0.pc
    }

    fn has_nr_word(&self) -> (r: bool) {
        true
    }

    fn get_syscall_nr(&self, regs: &Regs<RawRegs>, word: i32) -> (r: u64) {
        word as u64
    }

    fn set_syscall_nr(&self, regs: &mut Regs<RawRegs>, nr: u64) -> (r: Option<i32>) {
        Some(nr as i32)
    }

    fn restore_syscall_nr(&self, saved_nr: u64) -> (r: Option<i32>) {
        Some(saved_nr as i32)
    }

    fn set_syscall_args(&self, regs: &mut Regs<RawRegs>, args: [u64; 6]) {
        regs.0.x0 = args[0];
        regs.0.x1 = args[1];
        regs.0.x2 = args[2];
        regs.0.x3 = args[3];
        regs.0.x4 = args[4];
        regs.0.x5 = args[5];
    }

    fn syscall_result(&self, regs: &Regs<RawRegs>) -> (r: i64) {
        regs.0.x0 as i64
    }

    fn restore_ip(&self, regs: &mut Regs<RawRegs>, saved: &Regs<RawRegs>) {
        regs.0.pc = saved.0.pc;
    }

    fn dup_syscall(&self, oldfd: u64, newfd: u64) -> (r: (u64, [u64; 6])) {
        (NR_DUP3, [oldfd, newfd, 0, 0, 0, 0])
    }

    fn nr_mmap(&self) -> (r: u64) {
        NR_MMAP
    }

    fn nr_munmap(&self) -> (r: u64) {
        NR_MUNMAP
    }

    fn nr_openat(&self) -> (r: u64) {
        NR_OPENAT
    }

    fn nr_ioctl(&self) -> (r: u64) {
        NR_IOCTL
    }

    fn nr_setsid(&self) -> (r: u64) {
        NR_SETSID
    }

    fn nr_close(&self) -> (r: u64) {
        NR_CLOSE
    }

    fn nr_clone(&self) -> (r: u64) {
        NR_CLONE
    }

    fn nr_setpgid(&self) -> (r: u64) {
        NR_SETPGID
    }

    fn nr_kill(&self) -> (r: u64) {
        NR_KILL
    }

    fn nr_wait4(&self) -> (r: u64) {
        NR_WAIT4
    }

    fn nr_rt_sigaction(&self) -> (r: u64) {
        NR_RT_SIGACTION
    }

    fn nr_socket(&self) -> (r: u64) {
        NR_SOCKET
    }

    fn nr_connect(&self) -> (r: u64) {
        NR_CONNECT
    }

    fn nr_sendmsg(&self) -> (r: u64) {
        NR_SENDMSG
    }

    fn fallback_syscall_stop(&self, regs: &Regs<RawRegs>) -> (r: SyscallStop) {
        SyscallStop::Unknown
    }
}

// ---------------------------------------------------------------------
// Laws
// ---------------------------------------------------------------------

/// The result of a call is the whole return register as a signed number:
/// whatever 64-bit value the kernel returned comes back, large addresses
/// and negative error numbers alike.
pub proof fn whole_return_register_is_the_result(r: RawRegs, v: i64)
    requires
        r.x0 == v as u64,
    ensures
        Aarch64::result(r) == v,
{
    assert((v as u64) as i64 == v) by (bit_vector);
}

/// Two states with different return registers have different results, and
/// no other register has a say in it.
pub proof fn result_is_the_return_register_alone(r: RawRegs, q: RawRegs)
    ensures
        Aarch64::result(r) == Aarch64::result(q) <==> r.x0 == q.x0,
        Aarch64::result(r) >= 0 <==> r.x0 < 0x8000_0000_0000_0000,
        Aarch64::result(r) >= 0 ==> Aarch64::result(r) == r.x0,
        Aarch64::result(r) < 0 ==> Aarch64::result(r) == r.x0 - 0x1_0000_0000_0000_0000,
{
    let a = r.x0;
    let b = q.x0;
    assert((a as i64 == b as i64) == (a == b)) by (bit_vector);
    assert(a < 0x8000_0000_0000_0000 ==> a as i64 == a) by (bit_vector);
    assert(a >= 0x8000_0000_0000_0000 ==> a as i64 == a - 0x1_0000_0000_0000_0000)
        by (bit_vector);
}

/// No register state tells an entry stop from an exit stop.
pub proof fn nothing_is_guessed(r: RawRegs)
    ensures
        Aarch64::guess(r) == SyscallStop::Unknown,
{
}

/// The number word holds the number itself, for every number that it can
/// hold, and is the only thing that an entry stop goes by.
pub proof fn number_word_is_the_number(r: RawRegs, nr: u64, word: i32)
    ensures
        nr <= 0x7fff_ffff ==> Aarch64::nr_word(nr) is Some && Aarch64::nr_word(nr)->0 == nr,
        Aarch64::nr_word(nr) is Some && (Aarch64::nr_word(nr)->0 - nr) % 0x1_0000_0000 == 0,
        word >= 0 ==> Aarch64::entry_nr(r, word) == word,
        word < 0 ==> Aarch64::entry_nr(r, word) == 0x1_0000_0000_0000_0000 + word,
        Aarch64::nr_word(Aarch64::entry_nr(r, word)) == Some(word),
{
    assert(((word as u64) as i32) == word && (word < 0 ==> word as u64 == 0x1_0000_0000_0000_0000
        + word) && ((nr as i32) as u32) as u64 == nr % 0x1_0000_0000) by (bit_vector);
    let low = nr as i32;
    assert(low as u32 == low || low as u32 == low + 0x1_0000_0000) by (bit_vector);
}

/// Each change of a register state writes the registers that it is for,
/// and leaves every other register as it was.
pub proof fn changes_touch_their_registers_only(r: RawRegs, ip: u64, nr: u64, args: Seq<u64>)
    requires
        args.len() == 6,
        r.pc >= 4,
    ensures
        Aarch64::ip(r) == r.pc,
        Aarch64::args(r).len() == 6,
        Aarch64::args(r)[0] == r.x0 && Aarch64::args(r)[1] == r.x1 && Aarch64::args(r)[2] == r.x2,
        Aarch64::args(r)[3] == r.x3 && Aarch64::args(r)[4] == r.x4 && Aarch64::args(r)[5] == r.x5,
        Aarch64::issued_nr(r) == r.x8,
        Aarch64::with_ip(r, ip) == (RawRegs { pc: ip, ..r }),
        Aarch64::with_nr(r, nr) == r,
        ({
            let t = Aarch64::with_args(r, args);
            &&& t.x0 == args[0] && t.x1 == args[1] && t.x2 == args[2]
            &&& t.x3 == args[3] && t.x4 == args[4] && t.x5 == args[5]
            &&& t == (RawRegs {
                x0: t.x0,
                x1: t.x1,
                x2: t.x2,
                x3: t.x3,
                x4: t.x4,
                x5: t.x5,
                ..r
            })
        }),
        ({
            let t = Aarch64::fixed(r);
            &&& t.pc + 4 == r.pc
            &&& t == (RawRegs { pc: t.pc, ..r })
        }),
{
}

/// The syscall numbers are those of the architecture.
pub proof fn syscall_numbers_of_the_architecture()
    ensures
        Aarch64::numbers() == (Syscalls {
            dup: 24,
            mmap: 222,
            munmap: 215,
            openat: 56,
            ioctl: 29,
            setsid: 157,
            close: 57,
            clone: 220,
            setpgid: 154,
            kill: 129,
            wait4: 260,
            rt_sigaction: 134,
            socket: 198,
            connect: 203,
            sendmsg: 211,
        }),
        Aarch64::title() == "aarch64"@,
{
}

} // verus!
