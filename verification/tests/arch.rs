//! The architecture backends, on concrete registers.

use reptyr::arch::aarch64::{self, Aarch64};
use reptyr::arch::x86_64::{self, X86_64};
use reptyr::arch::{Arch, Regs, SyscallStop};

fn x86() -> x86_64::RawRegs {
    x86_64::RawRegs {
        r15: 15,
        r14: 14,
        r13: 13,
        r12: 12,
        rbp: 105,
        rbx: 103,
        r11: 11,
        r10: 10,
        r9: 9,
        r8: 8,
        rax: (-(libc::ENOSYS as i64)) as u64,
        rcx: 102,
        rdx: 104,
        rsi: 106,
        rdi: 107,
        orig_rax: 0,
        rip: 0x40_1002,
        cs: 0x33,
        eflags: 0x246,
        rsp: 0x7fff_0000,
        ss: 0x2b,
        fs_base: 1,
        gs_base: 2,
        ds: 3,
        es: 4,
        fs: 5,
        gs: 6,
    }
}

fn arm() -> aarch64::RawRegs {
    aarch64::RawRegs {
        x0: 100,
        x1: 101,
        x2: 102,
        x3: 103,
        x4: 104,
        x5: 105,
        x6: 106,
        x7: 107,
        x8: 63,
        x9: 109,
        x10: 110,
        x11: 111,
        x12: 112,
        x13: 113,
        x14: 114,
        x15: 115,
        x16: 116,
        x17: 117,
        x18: 118,
        x19: 119,
        x20: 120,
        x21: 121,
        x22: 122,
        x23: 123,
        x24: 124,
        x25: 125,
        x26: 126,
        x27: 127,
        x28: 128,
        x29: 129,
        x30: 130,
        sp: 0x7fff_0000,
        pc: 0x40_1004,
        pstate: 0x6000_0000,
    }
}

#[test]
fn x86_64_fixup_points_back_at_the_syscall() {
    let a = X86_64;
    let mut r = Regs(x86());
    r.0.orig_rax = 7;
    assert_eq!(a.get_syscall_nr(&r, 99), 7);
    a.save_fixup(&mut r);
    assert_eq!(r.0, x86_64::RawRegs { rip: 0x40_1000, rax: 7, orig_rax: 7, ..x86() });
    assert_eq!(a.get_syscall_nr(&r, 99), 7);
    assert_eq!(a.syscall_insn_len(), 2);
    assert_eq!(a.name(), "x86_64");
}

#[test]
fn x86_64_injection_touches_number_and_arguments_only() {
    let a = X86_64;
    let mut r = Regs(x86());
    assert_eq!(a.set_syscall_nr(&mut r, 9), None);
    a.set_syscall_args(&mut r, [1, 2, 3, 4, 5, 6]);
    assert_eq!(
        r.0,
        x86_64::RawRegs { orig_rax: 9, rdi: 1, rsi: 2, rdx: 3, r10: 4, r8: 5, r9: 6, ..x86() }
    );
    assert_eq!(a.restore_syscall_nr(9), None);
    assert!(!a.has_nr_word());
}

#[test]
fn x86_64_rewind_touches_the_instruction_pointer_only() {
    let a = X86_64;
    let mut r = Regs(x86());
    let mut saved = Regs(x86());
    saved.0.rip = 0x77;
    saved.0.rbx = 0;
    a.restore_ip(&mut r, &saved);
    assert_eq!(r.0, x86_64::RawRegs { rip: 0x77, ..x86() });
    assert_eq!(a.instruction_pointer(&r), 0x77);
}

#[test]
fn x86_64_results_and_guesses_come_from_rax() {
    let a = X86_64;
    let mut r = Regs(x86());
    assert_eq!(a.fallback_syscall_stop(&r), SyscallStop::Entry);
    r.0.rax = (-5i64) as u64;
    assert_eq!(a.fallback_syscall_stop(&r), SyscallStop::Exit);
    assert_eq!(a.syscall_result(&r), -5);
}

#[test]
fn x86_64_duplicates_with_dup2() {
    assert_eq!(X86_64.dup_syscall(4, 1), (libc::SYS_dup2 as u64, [4, 1, 0, 0, 0, 0]));
}

#[test]
fn aarch64_fixup_points_back_at_the_syscall() {
    let a = Aarch64;
    let mut r = Regs(arm());
    assert_eq!(a.get_syscall_nr(&r, 63), 63);
    a.save_fixup(&mut r);
    assert_eq!(r.0, aarch64::RawRegs { pc: 0x40_1000, ..arm() });
    assert_eq!(a.syscall_insn_len(), 4);
    assert_eq!(a.name(), "aarch64");
}

#[test]
fn aarch64_numbers_live_in_a_word_of_their_own() {
    let a = Aarch64;
    let mut r = Regs(arm());
    assert!(a.has_nr_word());
    assert_eq!(a.set_syscall_nr(&mut r, 222), Some(222));
    a.set_syscall_args(&mut r, [1, 2, 3, 4, 5, 6]);
    assert_eq!(r.0, aarch64::RawRegs { x0: 1, x1: 2, x2: 3, x3: 4, x4: 5, x5: 6, ..arm() });
    assert_eq!(a.restore_syscall_nr(63), Some(63));
}

#[test]
fn aarch64_rewind_result_and_guess() {
    let a = Aarch64;
    let mut r = Regs(arm());
    let mut saved = Regs(arm());
    saved.0.pc = 0x88;
    a.restore_ip(&mut r, &saved);
    assert_eq!(r.0, aarch64::RawRegs { pc: 0x88, ..arm() });
    assert_eq!(a.instruction_pointer(&r), 0x88);
    r.0.x0 = (-2i64) as u64;
    assert_eq!(a.syscall_result(&r), -2);
    assert_eq!(a.fallback_syscall_stop(&r), SyscallStop::Unknown);
    assert_eq!(a.dup_syscall(4, 1), (24, [4, 1, 0, 0, 0, 0]));
}

#[test]
fn every_number_is_handed_out() {
    let a = X86_64;
    assert_eq!(a.nr_mmap(), libc::SYS_mmap as u64);
    assert_eq!(a.nr_munmap(), libc::SYS_munmap as u64);
    assert_eq!(a.nr_openat(), libc::SYS_openat as u64);
    assert_eq!(a.nr_ioctl(), libc::SYS_ioctl as u64);
    assert_eq!(a.nr_setsid(), libc::SYS_setsid as u64);
    assert_eq!(a.nr_close(), libc::SYS_close as u64);
    assert_eq!(a.nr_clone(), libc::SYS_clone as u64);
    assert_eq!(a.nr_setpgid(), libc::SYS_setpgid as u64);
    assert_eq!(a.nr_kill(), libc::SYS_kill as u64);
    assert_eq!(a.nr_wait4(), libc::SYS_wait4 as u64);
    assert_eq!(a.nr_rt_sigaction(), libc::SYS_rt_sigaction as u64);
    assert_eq!(a.nr_socket(), libc::SYS_socket as u64);
    assert_eq!(a.nr_connect(), libc::SYS_connect as u64);
    assert_eq!(a.nr_sendmsg(), libc::SYS_sendmsg as u64);
    let b = Aarch64;
    assert_eq!(
        [b.nr_mmap(), b.nr_munmap(), b.nr_openat(), b.nr_ioctl(), b.nr_setsid(), b.nr_close()],
        [222, 215, 56, 29, 157, 57]
    );
    assert_eq!(
        [b.nr_clone(), b.nr_setpgid(), b.nr_kill(), b.nr_wait4(), b.nr_rt_sigaction()],
        [220, 154, 129, 260, 134]
    );
    assert_eq!([b.nr_socket(), b.nr_connect(), b.nr_sendmsg()], [198, 203, 211]);
}
