//! -T mode: steal the master end of the target's pty from its terminal
//! emulator, then proxy it to the current terminal.
//!
//! The emulator (the parent of the target's session leader) is ptraced,
//! its master fd is located by remotely calling TIOCGPTN on each of its
//! ptmx fds, and the fd is passed back over a unix socket with SCM_RIGHTS.
//! The emulator's copy is neutralized with /dev/null and the target's
//! session leader is made immune to SIGHUP.

use vstd::prelude::*;

use crate::abi::{AF_UNIX, SCM_RIGHTS, SOL_SOCKET, SUN_PATH_LEN};
use crate::bytes;
use crate::bytes::{join_half, push_half, push_short, push_word, push_zeros};
use crate::error;
use crate::error::{msg, Error, ErrorView};
use crate::target;
use crate::target::{major, minor, FdEntry};
use crate::text;
use crate::text::{chars_of, copy_text, parse_i32, parse_u32, push_signed, tail_after};
use crate::tty;

pub mod theft;

verus! {

/// Scratch page offsets for staged structures.
pub const PATH_OFF: u64 = 0x000;

pub const MSGHDR_OFF: u64 = 0x100;

pub const CMSG_OFF: u64 = 0x180;

pub const SOCKADDR_OFF: u64 = 0x200;

pub const PTN_OFF: u64 = 0x300;

/// Length of a control message that carries one fd.
pub const CMSG_LEN: u64 = 20;

/// Length of a unix socket address.
pub const SOCKADDR_LEN: u64 = 110;

// ---------------------------------------------------------------------
// The target's pty
// ---------------------------------------------------------------------

/// The number of the pty with the given slave path: what follows the last
/// slash.
pub open spec fn pty_number_of(slave: Seq<char>) -> Option<u32> {
    match text::unsigned_value(text::after_last(slave, '/'), u32::MAX as nat) {
        Some(v) => Some(v as u32),
        None => None,
    }
}

/// What the path of the target's terminal says.
pub open spec fn pty_meaning(slave: Seq<char>) -> Result<u32, ErrorView> {
    match pty_number_of(slave) {
        Some(ptn) => Ok(ptn),
        None => Err(ErrorView::Msg("target's terminal is not a pty: "@ + slave)),
    }
}

/// The number of the pty that the target sits on.
pub fn pty_number(slave: &str) -> (r: Result<u32, Error>)
    ensures
        error::outcome(r) == match pty_number_of(slave@) {
            Some(ptn) => Ok::<u32, ErrorView>(ptn),
            None => Err::<u32, ErrorView>(
                ErrorView::Msg("target's terminal is not a pty: "@ + slave@),
            ),
        },
        error::outcome(r) == pty_meaning(slave@),
{
    let chars: Vec<char> = chars_of(slave);
    let tail: Vec<char> = tail_after(&chars, '/');
    match parse_u32(&tail) {
        Some(ptn) => Ok(ptn),
        None => {
            let mut m: String = copy_text("target's terminal is not a pty: ");
            m.append(slave);
            Err(Error::Msg(m))
        },
    }
}

/// The number of a pty is read back from its slave path.
pub proof fn slave_path_names_its_pty(number: u32)
    ensures
        pty_number_of(tty::slave_name(number)) == Some(number),
{
    let digits = text::decimal(number as nat);
    let s = tty::slave_name(number);
    reveal_strlit("/dev/pts/");
    text::decimal_reads_back(number as nat);
    text::lemma_decimal_is_number(number as nat);
    assert(s[8] == '/');
    assert forall|i: int| 8 < i < s.len() implies s[i] != '/' by {
        assert(text::is_digit(digits[i - 9]));
    }
    text::lemma_after_last_at(s, '/', 8);
    assert(s.skip(9) =~= digits);
}

/// The /dev/ptmx device, as compared against st_rdev.
pub open spec fn ptmx_device(rdev: u64) -> bool {
    target::major_of(rdev) == 5 && target::minor_of(rdev) == 2
}

pub fn is_ptmx(rdev: u64) -> (r: bool)
    ensures
        r == ptmx_device(rdev),
{
    major(rdev) == 5 && minor(rdev) == 2
}

/// The fd of an entry, if it is a pty master.
pub open spec fn master_entry(entry: FdEntry) -> Option<i32> {
    match (target::number_named(entry.name@), entry.device) {
        (Some(fd), Some(device)) => if ptmx_device(device.rdev) {
            Some(fd)
        } else {
            None
        },
        _ => None,
    }
}

/// The pty masters among the entries, in order.
pub open spec fn master_entries(entries: Seq<FdEntry>) -> Seq<i32>
    decreases entries.len(),
{
    if entries.len() == 0 {
        Seq::empty()
    } else {
        let before = master_entries(entries.drop_last());
        match master_entry(entries.last()) {
            Some(fd) => before.push(fd),
            None => before,
        }
    }
}

/// Every fd among the entries of an fd directory that is a pty master.
pub fn ptmx_fds(entries: &Vec<FdEntry>) -> (r: Vec<i32>)
    ensures
        r@ == master_entries(entries@),
{
    let mut fds: Vec<i32> = Vec::new();
    let mut i: usize = 0;
    assert(entries@.take(0) =~= Seq::<FdEntry>::empty());
    while i < entries.len()
        invariant
            i <= entries@.len(),
            fds@ == master_entries(entries@.take(i as int)),
        decreases entries@.len() - i,
    {
        proof {
            assert(entries@.take(i + 1).drop_last() =~= entries@.take(i as int));
        }
        let name: Vec<char> = chars_of(entries[i].name.as_str());
        if let Some(fd) = parse_i32(&name) {
            if let Some(device) = entries[i].device {
                if is_ptmx(device.rdev) {
                    fds.push(fd);
                }
            }
        }
        i = i + 1;
    }
    assert(entries@.take(i as int) =~= entries@);
    fds
}

// ---------------------------------------------------------------------
// Structures on the wire
// ---------------------------------------------------------------------

/// `n` zero bytes.
pub open spec fn zeros(n: nat) -> Seq<u8> {
    Seq::new(n, |i: int| 0u8)
}

/// The name of the socket that takes the fd over.
pub open spec fn socket_name(pid: i32) -> Seq<char> {
    "reptyr-rs-"@ + text::signed_decimal(pid as int) + ".sock"@
}

/// The name of the socket that takes the fd over, for the process `pid`.
pub fn socket_file(pid: i32) -> (r: String)
    ensures
        r@ == socket_name(pid),
{
    let mut r: String = copy_text("reptyr-rs-");
    push_signed(&mut r, pid as i64);
    r.append(".sock");
    r
}

/// A `struct sockaddr_un`: the family, then the path, padded with zeros.
pub open spec fn sockaddr(path: Seq<u8>) -> Seq<u8> {
    bytes::short_bytes(AF_UNIX as u16) + path + zeros((SUN_PATH_LEN - path.len()) as nat)
}

/// What the path of a socket comes to as an address.
pub open spec fn sockaddr_meaning(path: Seq<u8>) -> Result<Seq<u8>, ErrorView> {
    if path.len() < SUN_PATH_LEN {
        Ok(sockaddr(path))
    } else {
        Err(ErrorView::Msg("socket path too long"@))
    }
}

/// The address of the socket with the given path, where it fits.
pub fn sockaddr_bytes(path: &Vec<u8>) -> (r: Result<Vec<u8>, Error>)
    ensures
        match r {
            Ok(b) => path@.len() < SUN_PATH_LEN && b@ == sockaddr(path@) && b@.len()
                == SOCKADDR_LEN,
            Err(e) => path@.len() >= SUN_PATH_LEN && e@ == ErrorView::Msg("socket path too long"@),
        },
        match r {
            Ok(b) => sockaddr_meaning(path@) == Ok::<Seq<u8>, ErrorView>(b@),
            Err(e) => sockaddr_meaning(path@) == Err::<Seq<u8>, ErrorView>(e@),
        },
{
    if path.len() >= SUN_PATH_LEN {
        return Err(msg("socket path too long"));
    }
    let mut b: Vec<u8> = Vec::new();
    push_short(&mut b, AF_UNIX as u16);
    let ghost head = b@;
    let mut i: usize = 0;
    while i < path.len()
        invariant
            i <= path@.len(),
            head.len() == 2,
            b@ == head + path@.take(i as int),
        decreases path@.len() - i,
    {
        b.push(path[i]);
        i = i + 1;
        assert(b@ =~= head + path@.take(i as int));
    }
    assert(path@.take(i as int) =~= path@);
    push_zeros(&mut b, SUN_PATH_LEN - path.len());
    assert(b@ =~= sockaddr(path@));
    Ok(b)
}

/// A `struct msghdr` with the control message at `control` and nothing
/// else.
pub open spec fn msghdr(control: u64) -> Seq<u8> {
    zeros(32) + bytes::word_bytes(control) + bytes::word_bytes(CMSG_LEN) + zeros(8)
}

/// The same as bytes.
pub fn msghdr_bytes(control: u64) -> (r: Vec<u8>)
    ensures
        r@ == msghdr(control),
        r@.len() == 56,
{
    let mut b: Vec<u8> = Vec::new();
    push_zeros(&mut b, 32);
    push_word(&mut b, control);
    push_word(&mut b, CMSG_LEN);
    push_zeros(&mut b, 8);
    assert(b@ =~= msghdr(control));
    b
}

/// A control message that passes `fd`.
pub open spec fn cmsg(fd: i32) -> Seq<u8> {
    bytes::word_bytes(CMSG_LEN) + bytes::half_bytes(SOL_SOCKET as u32) + bytes::half_bytes(
        SCM_RIGHTS as u32,
    ) + bytes::half_bytes(fd as u32) + zeros(4)
}

/// The same as bytes.
pub fn cmsg_bytes(fd: i32) -> (r: Vec<u8>)
    ensures
        r@ == cmsg(fd),
        r@.len() == 24,
{
    let mut b: Vec<u8> = Vec::new();
    push_word(&mut b, CMSG_LEN);
    push_half(&mut b, SOL_SOCKET as u32);
    push_half(&mut b, SCM_RIGHTS as u32);
    push_half(&mut b, fd as u32);
    push_zeros(&mut b, 4);
    assert(b@ =~= cmsg(fd));
    b
}

/// The four bytes at `at`, and the number that they hold.
pub open spec fn holds_half(control: Seq<u8>, at: int, value: u32) -> bool {
    control.subrange(at, at + 4) == bytes::half_bytes(value)
}

/// The fd that a received control message passes.
pub open spec fn passed_fd(control: Seq<u8>, fd: i32) -> bool {
    &&& holds_half(control, 8, SOL_SOCKET as u32)
    &&& holds_half(control, 12, SCM_RIGHTS as u32)
    &&& holds_half(control, 16, fd as u32)
}

pub open spec fn no_fd_received() -> ErrorView {
    ErrorView::Msg("no fd received from the emulator"@)
}

fn half_at(control: &Vec<u8>, at: usize) -> (r: u32)
    requires
        at + 4 <= control@.len(),
    ensures
        holds_half(control@, at as int, r),
{
    assert(at + 4 <= control.len());
    let r: u32 = join_half(control[at], control[at + 1], control[at + 2], control[at + 3]);
    assert(control@.subrange(at as int, at + 4) =~= bytes::half_bytes(r));
    r
}

/// What recvmsg comes to.
pub open spec fn received_meaning(n: i64, errno: i32, control: Seq<u8>) -> Result<i32, ErrorView> {
    if n < 0 {
        Err(ErrorView::Os(errno))
    } else if exists|fd: i32| passed_fd(control, fd) {
        Ok(choose|fd: i32| passed_fd(control, fd))
    } else {
        Err(no_fd_received())
    }
}

/// The received fd, from what recvmsg brought back: `n` and `errno`, and
/// the control message.
pub fn recv_fd(n: i64, errno: i32, control: &Vec<u8>) -> (r: Result<i32, Error>)
    requires
        control@.len() == 24,
    ensures
        n < 0 ==> (r matches Err(e) && e@ == ErrorView::Os(errno)),
        n >= 0 ==> match r {
            Ok(fd) => passed_fd(control@, fd),
            Err(e) => {
                &&& e@ == no_fd_received()
                &&& forall|fd: i32| !passed_fd(control@, fd)
            },
        },
        error::outcome(r) == received_meaning(n, errno, control@),
{
    if n < 0 {
        return Err(Error::Os(errno));
    }
    let level: u32 = half_at(control, 8);
    let kind: u32 = half_at(control, 12);
    if level != SOL_SOCKET as u32 || kind != SCM_RIGHTS as u32 {
        proof {
            bytes::half_bytes_tell_apart(level, SOL_SOCKET as u32);
            bytes::half_bytes_tell_apart(kind, SCM_RIGHTS as u32);
        }
        return Err(msg("no fd received from the emulator"));
    }
    let fd: u32 = half_at(control, 16);
    assert((fd as i32) as u32 == fd) by (bit_vector);
    proof {
        assert(passed_fd(control@, fd as i32));
        lemma_passed_fd_is_one(
            control@,
            fd as i32,
            choose|other: i32| passed_fd(control@, other),
        );
    }
    Ok(fd as i32)
}

/// A control message passes the fd that it was made for, and no other.
pub proof fn passed_fd_is_received(fd: i32, other: i32)
    ensures
        passed_fd(cmsg(fd), fd),
        passed_fd(cmsg(fd), other) ==> other == fd,
{
    let c = cmsg(fd);
    assert(c.subrange(8, 12) =~= bytes::half_bytes(SOL_SOCKET as u32));
    assert(c.subrange(12, 16) =~= bytes::half_bytes(SCM_RIGHTS as u32));
    assert(c.subrange(16, 20) =~= bytes::half_bytes(fd as u32));
    if passed_fd(c, other) {
        bytes::half_bytes_tell_apart(fd as u32, other as u32);
        assert(fd == other) by (bit_vector)
            requires
                fd as u32 == other as u32,
        ;
    }
}

/// A control message passes one fd at most.
proof fn lemma_passed_fd_is_one(control: Seq<u8>, fd: i32, other: i32)
    requires
        passed_fd(control, fd),
        passed_fd(control, other),
    ensures
        fd == other,
{
    bytes::half_bytes_tell_apart(fd as u32, other as u32);
    assert(fd == other) by (bit_vector)
        requires
            fd as u32 == other as u32,
    ;
}

/// The number behind the last slash of a terminal's path is its pty,
/// whatever directory it is in; a path that ends in anything else names no
/// pty.
pub proof fn pty_number_is_behind_the_last_slash(dir: Seq<char>, number: nat, tail: Seq<char>)
    requires
        !tail.contains('/'),
    ensures
        number <= 0xffff_ffff ==> pty_meaning(dir.push('/') + text::decimal(number)) == Ok::<
            u32,
            ErrorView,
        >(number as u32),
        number > 0xffff_ffff ==> pty_meaning(dir.push('/') + text::decimal(number)) is Err,
        text::unsigned_value(tail, 0xffff_ffff) is None ==> pty_meaning(dir.push('/') + tail)
            == Err::<u32, ErrorView>(
            ErrorView::Msg("target's terminal is not a pty: "@ + (dir.push('/') + tail)),
        ),
{
    let digits = text::decimal(number);
    text::decimal_has_no_leading_zero(number);
    text::lemma_decimal_is_number(number);
    text::decimal_reads_back(number);
    assert(!digits.contains('/')) by {
        if digits.contains('/') {
            let i = choose|i: int| 0 <= i < digits.len() && digits[i] == '/';
            assert(text::from_0_to_9(digits[i]));
        }
    }
    text::last_occurrence_cuts(dir, '/', digits);
    text::last_occurrence_cuts(dir, '/', tail);
    if number <= 0xffff_ffff {
        assert(text::unsigned_value(digits, u32::MAX as nat) == Some(number));
    }
}

/// A pty master is the device with the numbers 5 and 2, and nothing else
/// is.
pub proof fn masters_are_one_device(rdev: u64)
    ensures
        ptmx_device(rdev) <==> rdev == 0x502,
{
    let a: u32 = (((rdev & 0xfff00) >> 8) | ((rdev & 0xffff_f000_0000_0000) >> 32)) as u32;
    let b: u32 = ((rdev & 0xff) | ((rdev & 0xfff_fff0_0000) >> 12)) as u32;
    assert((a == 5 && b == 2) == (rdev == 0x502)) by (bit_vector)
        requires
            a == (((rdev & 0xfff00) >> 8) | ((rdev & 0xffff_f000_0000_0000) >> 32)) as u32,
            b == ((rdev & 0xff) | ((rdev & 0xfff_fff0_0000) >> 12)) as u32,
    ;
}

/// Whether an entry of an fd directory is the fd `fd` and a pty master.
pub open spec fn is_master(entry: FdEntry, fd: i32) -> bool {
    &&& text::signed_value(entry.name@, i32::MIN as int, i32::MAX as int) == Some(fd as int)
    &&& entry.device matches Some(device)
    &&& device.rdev == 0x502
}

/// The masters among the entries of an fd directory are found one by one
/// and in order, all of them and nothing else.
pub proof fn masters_are_all_listed(a: Seq<FdEntry>, b: Seq<FdEntry>, fd: i32)
    ensures
        master_entries(b).contains(fd) <==> exists|i: int|
            0 <= i < b.len() && is_master(#[trigger] b[i], fd),
        master_entries(a + b) == master_entries(a) + master_entries(b),
        b.len() == 1 && is_master(b[0], fd) ==> master_entries(b) == seq![fd],
        master_entries(b).len() <= b.len(),
    decreases b.len(),
{
    let all = master_entries(b);
    if b.len() == 0 {
        assert(a + b =~= a);
        assert(master_entries(a) + master_entries(b) =~= master_entries(a));
    } else {
        let front = b.drop_last();
        let last = b.last();
        masters_are_all_listed(a, front, fd);
        if let Some(device) = last.device {
            masters_are_one_device(device.rdev);
        }
        let before = master_entries(front);
        assert((a + b).drop_last() =~= a + front);
        assert(master_entries(a + b) =~= master_entries(a) + all);
        assert(b[b.len() - 1] == last);
        assert(forall|i: int| 0 <= i < front.len() ==> front[i] == b[i]);
        if b.len() == 1 && is_master(b[0], fd) {
            assert(before =~= Seq::<i32>::empty());
            assert(all =~= seq![fd]);
        }
        if before.contains(fd) {
            let j = choose|j: int| 0 <= j < before.len() && before[j] == fd;
            assert(all[j] == fd);
        }
        if is_master(last, fd) {
            assert(all[all.len() - 1] == fd);
        }
        if all.contains(fd) && !before.contains(fd) {
            let j = choose|j: int| 0 <= j < all.len() && all[j] == fd;
            if j < before.len() {
                assert(before[j] == fd);
            }
        }
        if exists|i: int| 0 <= i < b.len() && is_master(#[trigger] b[i], fd) {
            let i = choose|i: int| 0 <= i < b.len() && is_master(#[trigger] b[i], fd);
            if i < front.len() {
                assert(front[i] == b[i]);
            }
        }
    }
}

/// The socket that a process binds is named by the process.
pub proof fn socket_name_holds_the_process(pid: nat)
    requires
        pid <= i32::MAX,
    ensures
        socket_name(pid as i32) == "reptyr-rs-"@ + text::decimal(pid) + ".sock"@,
{
}

/// A socket address is 110 bytes: the family, which is 1, in the first two,
/// then the path, then zeros, at least one; so a path of 108 bytes or more
/// does not fit.
pub proof fn socket_address_by_the_byte(path: Seq<u8>)
    ensures
        match sockaddr_meaning(path) {
            Ok(b) => {
                &&& path.len() < 108
                &&& b.len() == 110
                &&& b[0] == 1 && b[1] == 0
                &&& forall|i: int| 0 <= i < path.len() ==> b[2 + i] == #[trigger] path[i]
                &&& forall|i: int| 2 + path.len() <= i < 110 ==> #[trigger] b[i] == 0
                &&& b[109] == 0
            },
            Err(e) => path.len() >= 108 && e == ErrorView::Msg("socket path too long"@),
        },
{
    bytes::bytes_are_digits(0, 0, 1);
    assert(bytes::short_bytes(AF_UNIX as u16).len() == 2);
}

/// The message that carries an fd, by the byte: 56 bytes that are zero but
/// for the address of the control message at 32 and its length, which is
/// 20, at 40.
pub proof fn message_header_by_the_byte(control: u64, i: int)
    requires
        0 <= i < 56,
    ensures
        msghdr(control).len() == 56,
        i < 32 || i >= 48 ==> msghdr(control)[i] == 0,
        32 <= i < 40 ==> msghdr(control)[i] == bytes::word_bytes(control)[i - 32],
        40 <= i < 48 ==> msghdr(control)[i] == if i == 40 {
            20u8
        } else {
            0u8
        },
{
    bytes::bytes_are_digits(20, 0, 0);
}

/// The control message, by the byte: 24 bytes, with its length, which is
/// 20, in front, then 1 for the socket level, 1 for rights, the fd, and
/// zeros.
pub proof fn control_message_by_the_byte(fd: i32, i: int)
    requires
        0 <= i < 24,
    ensures
        cmsg(fd).len() == 24,
        i < 8 ==> cmsg(fd)[i] == if i == 0 {
            20u8
        } else {
            0u8
        },
        8 <= i < 16 ==> cmsg(fd)[i] == if i == 8 || i == 12 {
            1u8
        } else {
            0u8
        },
        16 <= i < 20 ==> cmsg(fd)[i] == bytes::half_bytes(fd as u32)[i - 16],
        i >= 20 ==> cmsg(fd)[i] == 0,
{
    bytes::bytes_are_digits(20, 1, 0);
    bytes::bytes_are_digits(20, fd as u32, 0);
}

/// Whatever is received without an error as the control message of an fd is
/// that fd, however many bytes of other data came with it; a failed
/// reception is reported by its error number.
pub proof fn received_fd_is_the_one_sent(n: i64, errno: i32, fd: i32)
    ensures
        n >= 0 ==> received_meaning(n, errno, cmsg(fd)) == Ok::<i32, ErrorView>(fd),
        n < 0 ==> received_meaning(n, errno, cmsg(fd)) == Err::<i32, ErrorView>(
            ErrorView::Os(errno),
        ),
{
    passed_fd_is_received(fd, choose|other: i32| passed_fd(cmsg(fd), other));
}

/// A control message that is not of the socket level, or does not carry
/// rights, brings no fd; one that does brings the one whose number it
/// holds.
pub proof fn only_rights_bring_an_fd(n: i64, errno: i32, control: Seq<u8>, fd: i32)
    requires
        n >= 0,
        control.len() == 24,
    ensures
        !holds_half(control, 8, 1) || !holds_half(control, 12, 1) ==> received_meaning(
            n,
            errno,
            control,
        ) == Err::<i32, ErrorView>(ErrorView::Msg("no fd received from the emulator"@)),
        holds_half(control, 8, 1) && holds_half(control, 12, 1) && holds_half(
            control,
            16,
            fd as u32,
        ) ==> received_meaning(n, errno, control) == Ok::<i32, ErrorView>(fd),
{
    if holds_half(control, 8, 1) && holds_half(control, 12, 1) && holds_half(
        control,
        16,
        fd as u32,
    ) {
        assert(passed_fd(control, fd));
        lemma_passed_fd_is_one(control, fd, choose|other: i32| passed_fd(control, other));
    }
}

} // verus!
