//! What /proc says about the target process: its threads, its controlling
//! terminal device, and which fds sit on it. The files and directories are
//! read elsewhere; this module takes what was read.

use vstd::prelude::*;

use crate::abi::ENOENT;
use crate::cli::Streams;
use crate::error;
use crate::error::{msg, Error, ErrorView};
use crate::list;
use crate::text;
use crate::text::{
    chars_of, copy_text, last_part, parse_i32, parse_u64, push_signed, split_fields,
};

verus! {

// ---------------------------------------------------------------------
// Threads
// ---------------------------------------------------------------------

pub open spec fn no_such_process(pid: i32) -> ErrorView {
    ErrorView::Msg("no such process: "@ + text::signed_decimal(pid as int))
}

/// The error of a failed read of a file of the process `pid`.
pub open spec fn proc_failed(pid: i32, errno: i32) -> ErrorView {
    if errno == ENOENT {
        no_such_process(pid)
    } else {
        ErrorView::Os(errno)
    }
}

/// The error of a failed read of a file of the process `pid`.
pub fn proc_failure(pid: i32, errno: i32) -> (e: Error)
    ensures
        e@ == proc_failed(pid, errno),
{
    if errno == ENOENT {
        let mut m: String = copy_text("no such process: ");
        push_signed(&mut m, pid as i64);
        Error::Msg(m)
    } else {
        Error::Os(errno)
    }
}

/// The number that a file name spells.
pub open spec fn number_named(name: Seq<char>) -> Option<i32> {
    match text::signed_value(name, i32::MIN as int, i32::MAX as int) {
        Some(v) => Some(v as i32),
        None => None,
    }
}

/// The numbers that a list of file names spells, in order.
pub open spec fn numbers_named(names: Seq<Seq<char>>) -> Seq<i32>
    decreases names.len(),
{
    if names.len() == 0 {
        Seq::empty()
    } else {
        let before = numbers_named(names.drop_last());
        match number_named(names.last()) {
            Some(v) => before.push(v),
            None => before,
        }
    }
}

/// What the listing of a task directory comes to.
pub open spec fn threads_meaning(pid: i32, names: Result<Seq<Seq<char>>, i32>) -> Result<
    Seq<i32>,
    ErrorView,
> {
    match names {
        Err(errno) => Err(proc_failed(pid, errno)),
        Ok(names) => if numbers_named(names).len() > 0 {
            Ok(numbers_named(names))
        } else {
            Err(
                ErrorView::Msg(
                    "process "@ + text::signed_decimal(pid as int) + " has no threads"@,
                ),
            )
        },
    }
}

/// The threads of `pid`, from the names in its task directory, or from the
/// `errno` of the failure to list them.
pub fn threads(pid: i32, names: Result<Vec<String>, i32>) -> (r: Result<Vec<i32>, Error>)
    ensures
        match names {
            Err(errno) => r matches Err(e) && e@ == proc_failed(pid, errno),
            Ok(names) => {
                let tids = numbers_named(text::texts(names@));
                match r {
                    Ok(v) => tids.len() > 0 && v@ == tids,
                    Err(e) => tids.len() == 0 && e@ == ErrorView::Msg(
                        "process "@ + text::signed_decimal(pid as int) + " has no threads"@,
                    ),
                }
            },
        },
        ({
            let listed = match names {
                Ok(names) => Ok(text::texts(names@)),
                Err(errno) => Err(errno),
            };
            match r {
                Ok(v) => threads_meaning(pid, listed) == Ok::<Seq<i32>, ErrorView>(v@),
                Err(e) => threads_meaning(pid, listed) == Err::<Seq<i32>, ErrorView>(e@),
            }
        }),
{
    let names: Vec<String> = match names {
        Ok(names) => names,
        Err(errno) => {
            return Err(proc_failure(pid, errno));
        },
    };
    let ghost all = text::texts(names@);
    let mut tids: Vec<i32> = Vec::new();
    let mut i: usize = 0;
    assert(all.take(0) =~= Seq::<Seq<char>>::empty());
    while i < names.len()
        invariant
            i <= names@.len(),
            all == text::texts(names@),
            tids@ == numbers_named(all.take(i as int)),
        decreases names@.len() - i,
    {
        let name: Vec<char> = chars_of(names[i].as_str());
        proof {
            assert(all.take(i + 1).drop_last() =~= all.take(i as int));
            assert(all.take(i + 1).last() == name@);
        }
        if let Some(tid) = parse_i32(&name) {
            tids.push(tid);
        }
        i = i + 1;
    }
    assert(all.take(i as int) =~= all);
    if tids.len() == 0 {
        let mut m: String = copy_text("process ");
        push_signed(&mut m, pid as i64);
        m.append(" has no threads");
        return Err(Error::Msg(m));
    }
    Ok(tids)
}

// ---------------------------------------------------------------------
// /proc/<pid>/stat
// ---------------------------------------------------------------------

/// The fields after `comm`, which is wrapped in parentheses and may itself
/// contain spaces or parentheses: the fields resume after the last ')'.
pub open spec fn stat_fields(stat: Seq<char>) -> Seq<Seq<char>> {
    text::fields(text::after_last(stat, ')'))
}

/// Field `i` as an unsigned number.
pub open spec fn unsigned_field(fields: Seq<Seq<char>>, i: int) -> Option<u64> {
    if 0 <= i < fields.len() {
        match text::unsigned_value(fields[i], u64::MAX as nat) {
            Some(v) => Some(v as u64),
            None => None,
        }
    } else {
        None
    }
}

pub open spec fn malformed_stat() -> ErrorView {
    ErrorView::Msg("malformed /proc/<pid>/stat"@)
}

/// The process group, the session and the encoded controlling terminal: the
/// third, fourth and fifth field after `comm` (state ppid pgrp session
/// tty_nr).
pub open spec fn stat_meaning(stat: Seq<char>) -> Result<(u64, u64, u64), ErrorView> {
    let fields = stat_fields(stat);
    match (unsigned_field(fields, 2), unsigned_field(fields, 3), unsigned_field(fields, 4)) {
        (Some(pgrp), Some(session), Some(tty_nr)) => Ok((pgrp, session, tty_nr)),
        _ => Err(malformed_stat()),
    }
}

fn get_unsigned(fields: &Vec<Vec<char>>, i: usize) -> (r: Option<u64>)
    ensures
        r == unsigned_field(text::pieces(fields@), i as int),
{
    if i < fields.len() {
        parse_u64(&fields[i])
    } else {
        None
    }
}

/// Parse the fields after `comm` in /proc/<pid>/stat: (pgrp, session,
/// tty_nr_raw).
pub fn stat_ids(stat: &str) -> (r: Result<(u64, u64, u64), Error>)
    ensures
        error::outcome(r) == stat_meaning(stat@),
{
    let chars: Vec<char> = chars_of(stat);
    let from: usize = last_part(&chars, ')');
    let fields: Vec<Vec<char>> = split_fields(&chars, from);
    match (get_unsigned(&fields, 2), get_unsigned(&fields, 3), get_unsigned(&fields, 4)) {
        (Some(pgrp), Some(session), Some(tty_nr)) => Ok((pgrp, session, tty_nr)),
        _ => Err(msg("malformed /proc/<pid>/stat")),
    }
}

/// A device number as encoded in /proc, taken apart into major and minor.
pub open spec fn decode_dev(tty_nr: u64) -> (u64, u64) {
    ((tty_nr >> 8) & 0xfff, (tty_nr & 0xff) | ((tty_nr >> 12) & 0xfff00))
}

/// How the kernel encodes a device number in /proc.
pub open spec fn encode_dev(major: u64, minor: u64) -> u64 {
    (minor & 0xff) | (major << 8) | ((minor & 0xfff00) << 12)
}

/// The device of the controlling terminal.
pub open spec fn tty_meaning(stat: Seq<char>) -> Result<Option<(u64, u64)>, ErrorView> {
    match stat_meaning(stat) {
        Err(e) => Err(e),
        Ok((_, _, tty_nr)) => Ok(
            if tty_nr == 0 {
                None
            } else {
                Some(decode_dev(tty_nr))
            },
        ),
    }
}

/// Device numbers (major, minor) of the controlling terminal of the process
/// with the given stat, or None if it has none.
pub fn controlling_tty(stat: &str) -> (r: Result<Option<(u64, u64)>, Error>)
    ensures
        error::outcome(r) == tty_meaning(stat@),
{
    match stat_ids(stat) {
        Err(e) => Err(e),
        Ok((_, _, tty_nr)) => {
            if tty_nr == 0 {
                return Ok(None);
            }
            let major: u64 = (tty_nr >> 8) & 0xfff;
            let minor: u64 = (tty_nr & 0xff) | ((tty_nr >> 12) & 0xfff00);
            Ok(Some((major, minor)))
        },
    }
}

/// Decoding undoes the kernel's encoding, for every major and minor number
/// that it has.
pub proof fn decoding_undoes_encoding(major: u64, minor: u64)
    requires
        major < 0x1000,
        minor < 0x10_0000,
    ensures
        decode_dev(encode_dev(major, minor)) == (major, minor),
{
    let t: u64 = (minor & 0xff) | (major << 8) | ((minor & 0xfff00) << 12);
    assert((t >> 8) & 0xfff == major && (t & 0xff) | ((t >> 12) & 0xfff00) == minor) by (bit_vector)
        requires
            major < 0x1000,
            minor < 0x10_0000,
            t == (minor & 0xff) | (major << 8) | ((minor & 0xfff00) << 12),
    ;
}

/// Whether a process leads its own session, by its stat.
pub open spec fn leads_session(pid: i32, stat: Seq<char>) -> Result<bool, ErrorView> {
    match stat_meaning(stat) {
        Err(e) => Err(e),
        Ok((_, session, _)) => Ok(session == pid as u64),
    }
}

/// The session of a process, by its stat.
pub open spec fn session_meaning(stat: Seq<char>) -> Result<i32, ErrorView> {
    match stat_meaning(stat) {
        Err(e) => Err(e),
        Ok((_, session, _)) => Ok(session as i32),
    }
}

/// The parent of a process, by its stat.
pub open spec fn parent_meaning(stat: Seq<char>) -> Result<i32, ErrorView> {
    let fields = stat_fields(stat);
    if fields.len() > 1 {
        match number_named(fields[1]) {
            Some(ppid) => Ok(ppid),
            None => Err(malformed_stat()),
        }
    } else {
        Err(malformed_stat())
    }
}

/// Whether the process `pid` with the given stat leads its own session.
pub fn is_session_leader(pid: i32, stat: &str) -> (r: Result<bool, Error>)
    ensures
        error::outcome(r) == match stat_meaning(stat@) {
            Err(e) => Err(e),
            Ok((_, session, _)) => Ok(session == pid as u64),
        },
        error::outcome(r) == leads_session(pid, stat@),
{
    match stat_ids(stat) {
        Err(e) => Err(e),
        Ok((_, session, _)) => Ok(session == pid as u64),
    }
}

/// The session id of the process with the given stat.
pub fn session_id(stat: &str) -> (r: Result<i32, Error>)
    ensures
        error::outcome(r) == match stat_meaning(stat@) {
            Err(e) => Err(e),
            Ok((_, session, _)) => Ok(session as i32),
        },
        error::outcome(r) == session_meaning(stat@),
{
    match stat_ids(stat) {
        Err(e) => Err(e),
        Ok((_, session, _)) => Ok(session as i32),
    }
}

/// Parent pid of the process with the given stat: the second field after
/// `comm`.
pub fn ppid_of(stat: &str) -> (r: Result<i32, Error>)
    ensures
        ({
            let fields = stat_fields(stat@);
            let ppid = if fields.len() > 1 {
                number_named(fields[1])
            } else {
                None
            };
            error::outcome(r) == match ppid {
                Some(ppid) => Ok::<i32, ErrorView>(ppid),
                None => Err::<i32, ErrorView>(malformed_stat()),
            }
        }),
        error::outcome(r) == parent_meaning(stat@),
{
    let chars: Vec<char> = chars_of(stat);
    let from: usize = last_part(&chars, ')');
    let fields: Vec<Vec<char>> = split_fields(&chars, from);
    if fields.len() > 1 {
        assert(text::pieces(fields@)[1] == fields@[1]@);
        if let Some(ppid) = parse_i32(&fields[1]) {
            return Ok(ppid);
        }
    }
    Err(msg("malformed /proc/<pid>/stat"))
}

// ---------------------------------------------------------------------
// Process groups
// ---------------------------------------------------------------------

/// An entry of /proc: its name, and the stat of the process that it stands
/// for, where that could be read.
#[derive(Debug)]
pub struct ProcEntry {
    pub name: String,
    pub stat: Option<String>,
}

pub struct ProcEntryView {
    pub name: Seq<char>,
    pub stat: Option<Seq<char>>,
}

impl View for ProcEntry {
    type V = ProcEntryView;

    open spec fn view(&self) -> ProcEntryView {
        ProcEntryView {
            name: self.name@,
            stat: match self.stat {
                Some(stat) => Some(stat@),
                None => None,
            },
        }
    }
}

/// The process that an entry of /proc stands for: its name holds digits
/// only.
pub open spec fn process_named(name: Seq<char>) -> Option<i32> {
    if text::all_digits(name) {
        number_named(name)
    } else {
        None
    }
}

/// The process that an entry of /proc stands for, if it is in the process
/// group `pgrp`.
pub open spec fn member_of(pgrp: i32, entry: ProcEntryView) -> Option<i32> {
    match (process_named(entry.name), entry.stat) {
        (Some(pid), Some(stat)) => match stat_meaning(stat) {
            Ok((p, _, _)) => if p == pgrp as u64 {
                Some(pid)
            } else {
                None
            },
            Err(_) => None,
        },
        _ => None,
    }
}

/// The processes of the process group `pgrp`, in order.
pub open spec fn members_of(pgrp: i32, entries: Seq<ProcEntry>) -> Seq<i32>
    decreases entries.len(),
{
    if entries.len() == 0 {
        Seq::empty()
    } else {
        let before = members_of(pgrp, entries.drop_last());
        match member_of(pgrp, entries.last()@) {
            Some(pid) => before.push(pid),
            None => before,
        }
    }
}

/// The process that an entry of /proc stands for.
pub fn process_of(name: &str) -> (r: Option<i32>)
    ensures
        r == process_named(name@),
{
    let chars: Vec<char> = chars_of(name);
    let mut i: usize = 0;
    while i < chars.len()
        invariant
            i <= chars@.len(),
            chars@ == name@,
            forall|j: int| 0 <= j < i ==> text::is_digit(#[trigger] chars@[j]),
        decreases chars@.len() - i,
    {
        let c: char = chars[i];
        if c < '0' || c > '9' {
            assert(!text::is_digit(name@[i as int]));
            return None;
        }
        i = i + 1;
    }
    parse_i32(&chars)
}

/// Every process whose process group is `pgrp`, among the entries of /proc.
pub fn procs_in_pgrp(pgrp: i32, entries: &Vec<ProcEntry>) -> (r: Vec<i32>)
    ensures
        r@ == members_of(pgrp, entries@),
{
    let mut pids: Vec<i32> = Vec::new();
    let mut i: usize = 0;
    assert(entries@.take(0) =~= Seq::<ProcEntry>::empty());
    while i < entries.len()
        invariant
            i <= entries@.len(),
            pids@ == members_of(pgrp, entries@.take(i as int)),
        decreases entries@.len() - i,
    {
        proof {
            assert(entries@.take(i + 1).drop_last() =~= entries@.take(i as int));
        }
        if let Some(pid) = process_of(entries[i].name.as_str()) {
            if let Some(stat) = &entries[i].stat {
                if let Ok((p, _, _)) = stat_ids(stat.as_str()) {
                    if p == pgrp as u64 {
                        pids.push(pid);
                    }
                }
            }
        }
        i = i + 1;
    }
    assert(entries@.take(i as int) =~= entries@);
    pids
}

// ---------------------------------------------------------------------
// Terminal attributes
// ---------------------------------------------------------------------

/// What to do about the terminal attributes of a target next.
#[derive(Debug)]
pub enum Probe {
    /// Those of the fd that was looked at are the target's.
    Found,
    /// Look at this fd.
    Next(i32),
    Failed(Error),
}

pub open spec fn no_terminal() -> ErrorView {
    ErrorView::Msg(
        "target is not connected to a terminal (use -s to force attaching anyways)"@,
    )
}

/// The target's current terminal attributes are those of the first of its
/// fds 0-2 that is a terminal: after a look at `fd`, what comes next.
pub fn termios_of(fd: i32, usable: bool) -> (r: Probe)
    requires
        0 <= fd < 3,
    ensures
        match r {
            Probe::Found => usable,
            Probe::Next(next) => !usable && fd < 2 && next == fd + 1,
            Probe::Failed(e) => !usable && fd == 2 && e@ == no_terminal(),
        },
{
    if usable {
        Probe::Found
    } else if fd < 2 {
        Probe::Next(fd + 1)
    } else {
        Probe::Failed(
            msg("target is not connected to a terminal (use -s to force attaching anyways)"),
        )
    }
}

// ---------------------------------------------------------------------
// File descriptors
// ---------------------------------------------------------------------

/// What stat(2) says of an fd of the target.
#[derive(Debug, Clone, Copy, PartialEq, Eq, Structural)]
pub struct Device {
    /// Whether it is a character device.
    pub is_char: bool,
    /// The device that it stands for.
    pub rdev: u64,
}

/// An entry of a process's fd directory. Fds can vanish between listing and
/// statting; those have no device.
#[derive(Debug)]
pub struct FdEntry {
    pub name: String,
    pub device: Option<Device>,
}

pub open spec fn major_of(dev: u64) -> u32 {
    (((dev & 0xfff00) >> 8) | ((dev & 0xffff_f000_0000_0000) >> 32)) as u32
}

pub open spec fn minor_of(dev: u64) -> u32 {
    ((dev & 0xff) | ((dev & 0xfff_fff0_0000) >> 12)) as u32
}

/// `libc::major`: the major number is in the bits 8 to 19 and 44 to 63 of a
/// device number.
#[verifier::external_body]
pub(crate) fn major(dev: u64) -> (r: u32)
    ensures
        r == major_of(dev),
{
    libc::major(dev)
}

/// `libc::minor`: the minor number is in the bits 0 to 7 and 20 to 43 of a
/// device number.
#[verifier::external_body]
pub(crate) fn minor(dev: u64) -> (r: u32)
    ensures
        r == minor_of(dev),
{
    libc::minor(dev)
}

/// The fd of an entry, if it points at the given terminal device.
pub open spec fn fd_on_tty(entry: FdEntry, dev: (u64, u64)) -> Option<i32> {
    match (number_named(entry.name@), entry.device) {
        (Some(fd), Some(device)) => if device.is_char && major_of(device.rdev) == dev.0 && minor_of(
            device.rdev,
        ) == dev.1 {
            Some(fd)
        } else {
            None
        },
        _ => None,
    }
}

/// The fds that point at the given terminal device, in the order of the
/// entries.
pub open spec fn tty_fds(entries: Seq<FdEntry>, dev: (u64, u64)) -> Seq<i32>
    decreases entries.len(),
{
    if entries.len() == 0 {
        Seq::empty()
    } else {
        let before = tty_fds(entries.drop_last(), dev);
        match fd_on_tty(entries.last(), dev) {
            Some(fd) => before.push(fd),
            None => before,
        }
    }
}

fn collect_tty_fds(entries: &Vec<FdEntry>, dev: (u64, u64)) -> (r: Vec<i32>)
    ensures
        r@ == tty_fds(entries@, dev),
{
    let mut fds: Vec<i32> = Vec::new();
    let mut i: usize = 0;
    assert(entries@.take(0) =~= Seq::<FdEntry>::empty());
    while i < entries.len()
        invariant
            i <= entries@.len(),
            fds@ == tty_fds(entries@.take(i as int), dev),
        decreases entries@.len() - i,
    {
        proof {
            assert(entries@.take(i + 1).drop_last() =~= entries@.take(i as int));
        }
        let name: Vec<char> = chars_of(entries[i].name.as_str());
        if let Some(fd) = parse_i32(&name) {
            if let Some(device) = entries[i].device {
                if device.is_char && major(device.rdev) as u64 == dev.0 && minor(device.rdev) as u64
                    == dev.1 {
                    fds.push(fd);
                }
            }
        }
        i = i + 1;
    }
    assert(entries@.take(i as int) =~= entries@);
    fds
}

/// Target fds that point at the given terminal device, in ascending order.
pub fn fds_on_tty(entries: &Vec<FdEntry>, dev: (u64, u64)) -> (r: Vec<i32>)
    ensures
        r@ == list::arranged(None, tty_fds(entries@, dev)),
        list::ordered(None, r@),
        r@.to_multiset() == tty_fds(entries@, dev).to_multiset(),
{
    list::sort(&collect_tty_fds(entries, dev), None)
}

/// The fds 0-2 that are not in `fds` yet.
pub open spec fn missing_stdio(fds: Seq<i32>) -> Seq<i32> {
    seq![0i32, 1, 2].filter(|fd: i32| !fds.contains(fd))
}

/// The fds that can be redirected: those on the terminal and, with
/// `force_stdio`, the fds 0-2.
pub open spec fn candidates(on_tty: Seq<i32>, force_stdio: bool) -> Seq<i32> {
    if force_stdio {
        on_tty + missing_stdio(on_tty)
    } else {
        on_tty
    }
}

/// What the choice of streams lets through.
pub open spec fn selected(streams: Streams) -> spec_fn(i32) -> bool {
    |fd: i32| fd > 2 || streams.selects(fd)
}

/// The fds to redirect, before they are put in order.
pub open spec fn chosen(
    dev: Option<(u64, u64)>,
    entries: Seq<FdEntry>,
    streams: Streams,
    force_stdio: bool,
) -> Seq<i32> {
    let on_tty = match dev {
        Some(dev) => tty_fds(entries, dev),
        None => Seq::empty(),
    };
    candidates(on_tty, force_stdio).filter(selected(streams))
}

pub open spec fn nothing_to_redirect() -> ErrorView {
    ErrorView::Msg(
        "target has no file descriptors on a terminal; use -s to force fds 0, 1, 2"@,
    )
}

fn add_missing_stdio(fds: &mut Vec<i32>)
    ensures
        final(fds)@ == old(fds)@ + missing_stdio(old(fds)@),
{
    let ghost on_tty = fds@;
    let has0: bool = list::contains(fds, 0);
    let has1: bool = list::contains(fds, 1);
    let has2: bool = list::contains(fds, 2);
    if !has0 {
        fds.push(0);
    }
    if !has1 {
        fds.push(1);
    }
    if !has2 {
        fds.push(2);
    }
    proof {
        let absent = |fd: i32| !on_tty.contains(fd);
        let all = seq![0i32, 1, 2];
        reveal(Seq::filter);
        assert(all.drop_last() =~= seq![0i32, 1]);
        assert(seq![0i32, 1].drop_last() =~= seq![0i32]);
        assert(seq![0i32].drop_last() =~= Seq::<i32>::empty());
        assert(Seq::<i32>::empty().filter(absent) =~= Seq::<i32>::empty());
        assert(seq![0i32].filter(absent) =~= if has0 {
            Seq::<i32>::empty()
        } else {
            seq![0i32]
        });
        assert(seq![0i32, 1].filter(absent) =~= if has1 {
            seq![0i32].filter(absent)
        } else {
            seq![0i32].filter(absent).push(1)
        });
        assert(all.filter(absent) =~= if has2 {
            seq![0i32, 1].filter(absent)
        } else {
            seq![0i32, 1].filter(absent).push(2)
        });
        assert(missing_stdio(on_tty) == all.filter(absent));
        assert(fds@ =~= on_tty + missing_stdio(on_tty));
    }
}

fn retain_selected(fds: &Vec<i32>, streams: Streams) -> (r: Vec<i32>)
    ensures
        r@ == fds@.filter(selected(streams)),
{
    let mut r: Vec<i32> = Vec::new();
    let mut i: usize = 0;
    proof {
        reveal(Seq::filter);
    }
    assert(fds@.take(0).filter(selected(streams)) =~= r@);
    while i < fds.len()
        invariant
            i <= fds@.len(),
            r@ == fds@.take(i as int).filter(selected(streams)),
        decreases fds@.len() - i,
    {
        proof {
            reveal(Seq::filter);
            assert(fds@.take(i + 1).drop_last() =~= fds@.take(i as int));
        }
        let fd: i32 = fds[i];
        if fd > 2 || streams.includes(fd) {
            r.push(fd);
        }
        i = i + 1;
    }
    assert(fds@.take(i as int) =~= fds@);
    r
}

/// The fds to redirect, in ascending order.
pub open spec fn redirection_meaning(
    dev: Option<(u64, u64)>,
    entries: Seq<FdEntry>,
    streams: Streams,
    force_stdio: bool,
) -> Result<Seq<i32>, ErrorView> {
    let fds = chosen(dev, entries, streams, force_stdio);
    if fds.len() == 0 {
        Err(nothing_to_redirect())
    } else {
        Ok(list::arranged(None, fds))
    }
}

/// Decide which target fds to redirect: everything on the controlling
/// terminal `dev`, plus fds 0-2 unconditionally with `-s`, filtered by
/// STREAMS for fds 0-2 only.
pub fn fds_to_redirect(
    dev: Option<(u64, u64)>,
    entries: &Vec<FdEntry>,
    streams: Streams,
    force_stdio: bool,
) -> (r: Result<Vec<i32>, Error>)
    ensures
        ({
            let fds = chosen(dev, entries@, streams, force_stdio);
            match r {
                Ok(v) => {
                    &&& fds.len() > 0
                    &&& v@.len() > 0
                    &&& v@ == list::arranged(None, fds)
                    &&& list::ordered(None, v@)
                    &&& v@.to_multiset() == fds.to_multiset()
                },
                Err(e) => fds.len() == 0 && e@ == nothing_to_redirect(),
            }
        }),
        match r {
            Ok(v) => redirection_meaning(dev, entries@, streams, force_stdio) == Ok::<
                Seq<i32>,
                ErrorView,
            >(v@),
            Err(e) => redirection_meaning(dev, entries@, streams, force_stdio) == Err::<
                Seq<i32>,
                ErrorView,
            >(e@),
        },
{
    let mut fds: Vec<i32> = match dev {
        Some(dev) => collect_tty_fds(entries, dev),
        None => Vec::new(),
    };
    if force_stdio {
        add_missing_stdio(&mut fds);
    }
    let kept: Vec<i32> = retain_selected(&fds, streams);
    if kept.len() == 0 {
        return Err(
            msg("target has no file descriptors on a terminal; use -s to force fds 0, 1, 2"),
        );
    }
    Ok(list::sort(&kept, None))
}

/// An fd is redirected exactly when it is on the controlling terminal, or
/// is one of 0-2 and these are forced; and, if it is one of 0-2, its stream
/// is selected. Fds above 2 on the terminal are always redirected.
pub proof fn redirected_fds_are_the_wanted_ones(
    dev: Option<(u64, u64)>,
    entries: Seq<FdEntry>,
    streams: Streams,
    force_stdio: bool,
    r: Seq<i32>,
    fd: i32,
)
    requires
        r.to_multiset() == chosen(dev, entries, streams, force_stdio).to_multiset(),
    ensures
        ({
            let on_tty = dev is Some && tty_fds(entries, dev->Some_0).contains(fd);
            let wanted = on_tty || (force_stdio && 0 <= fd <= 2);
            &&& r.contains(fd) <==> wanted && (fd > 2 || streams.selects(fd))
            &&& on_tty && fd > 2 ==> r.contains(fd)
        }),
{
    let on_tty = match dev {
        Some(dev) => tty_fds(entries, dev),
        None => Seq::empty(),
    };
    let all = candidates(on_tty, force_stdio);
    let kept = all.filter(selected(streams));
    r.to_multiset_ensures();
    kept.to_multiset_ensures();
    assert(r.contains(fd) <==> kept.contains(fd)) by {
        assert(r.to_multiset().count(fd) > 0 <==> r.contains(fd));
        assert(kept.to_multiset().count(fd) > 0 <==> kept.contains(fd));
    }
    list::lemma_filter(all, selected(streams));
    if force_stdio {
        let absent = |x: i32| !on_tty.contains(x);
        let three = seq![0i32, 1, 2];
        list::lemma_filter(three, absent);
        assert(missing_stdio(on_tty) == three.filter(absent));
        assert(three[0] == 0 && three[1] == 1 && three[2] == 2);
        assert(three.contains(fd) <==> 0 <= fd <= 2) by {
            if 0 <= fd <= 2 {
                assert(three[fd as int] == fd);
            }
        }
        assert(all.contains(fd) <==> on_tty.contains(fd) || three.filter(absent).contains(fd)) by {
            if on_tty.contains(fd) {
                let j = choose|j: int| 0 <= j < on_tty.len() && on_tty[j] == fd;
                assert(all[j] == fd);
            }
            if three.filter(absent).contains(fd) {
                let j = choose|j: int|
                    0 <= j < three.filter(absent).len() && three.filter(absent)[j] == fd;
                assert(all[on_tty.len() + j] == fd);
            }
        }
    }
}

// ---------------------------------------------------------------------
// The terminal's path
// ---------------------------------------------------------------------

/// The first link that could be read.
pub open spec fn first_link(links: Seq<Option<String>>) -> Option<Seq<char>>
    decreases links.len(),
{
    if links.len() == 0 {
        None
    } else {
        match first_link(links.drop_last()) {
            Some(path) => Some(path),
            None => match links.last() {
                Some(path) => Some(path@),
                None => None,
            },
        }
    }
}

/// The path of the terminal, by the links of the fds that point at it.
pub open spec fn path_meaning(links: Seq<Option<String>>) -> Result<Seq<char>, ErrorView> {
    match first_link(links) {
        Some(path) => Ok(path),
        None => Err(ErrorView::Msg("cannot determine the target's terminal path"@)),
    }
}

/// Path of the target's controlling terminal, e.g. "/dev/pts/4", from the
/// links of the fds that point at it.
pub fn ctty_path(links: &Vec<Option<String>>) -> (r: Result<String, Error>)
    ensures
        match (r, first_link(links@)) {
            (Ok(path), Some(link)) => path@ == link,
            (Err(e), None) => e@ == ErrorView::Msg("cannot determine the target's terminal path"@),
            _ => false,
        },
        match r {
            Ok(path) => path_meaning(links@) == Ok::<Seq<char>, ErrorView>(path@),
            Err(e) => path_meaning(links@) == Err::<Seq<char>, ErrorView>(e@),
        },
{
    let mut i: usize = 0;
    assert(links@.take(0) =~= Seq::<Option<String>>::empty());
    while i < links.len()
        invariant
            i <= links@.len(),
            first_link(links@.take(i as int)) is None,
        decreases links@.len() - i,
    {
        proof {
            assert(links@.take(i + 1).drop_last() =~= links@.take(i as int));
        }
        if let Some(path) = &links[i] {
            proof {
                lemma_first_link(links@, i + 1);
            }
            return Ok(copy_text(path.as_str()));
        }
        i = i + 1;
    }
    assert(links@.take(i as int) =~= links@);
    Err(msg("cannot determine the target's terminal path"))
}

proof fn lemma_first_link(links: Seq<Option<String>>, k: int)
    requires
        0 <= k <= links.len(),
        first_link(links.take(k)) is Some,
    ensures
        first_link(links) == first_link(links.take(k)),
    decreases links.len(),
{
    if k == links.len() {
        assert(links.take(k) =~= links);
    } else {
        assert(links.drop_last().take(k) =~= links.take(k));
        lemma_first_link(links.drop_last(), k);
    }
}

// ---------------------------------------------------------------------
// Laws
// ---------------------------------------------------------------------

/// A missing file of a process means that there is no such process; any
/// other failure is passed on.
pub proof fn missing_file_means_no_process(pid: nat, errno: i32)
    requires
        pid <= i32::MAX,
    ensures
        errno == 2 ==> proc_failed(pid as i32, errno) == ErrorView::Msg(
            "no such process: "@ + text::decimal(pid),
        ),
        errno != 2 ==> proc_failed(pid as i32, errno) == ErrorView::Os(errno),
{
}

/// A file name that is a number in decimal stands for that number, and one
/// that holds anything else for none.
pub proof fn file_names_spell_numbers(n: nat, name: Seq<char>, i: int)
    ensures
        n <= i32::MAX ==> number_named(text::decimal(n)) == Some(n as i32),
        n > i32::MAX ==> number_named(text::decimal(n)) is None,
        n <= i32::MAX ==> process_named(text::decimal(n)) == Some(n as i32),
        n > i32::MAX ==> process_named(text::decimal(n)) is None,
        0 < i < name.len() && !text::from_0_to_9(name[i]) ==> number_named(name) is None,
        0 <= i < name.len() && !text::from_0_to_9(name[i]) ==> process_named(name) is None,
        name.len() == 0 ==> number_named(name) is None && process_named(name) is None,
{
    text::lemma_decimal_is_number(n);
    text::decimal_reads_back(n);
    if n <= i32::MAX {
        assert(text::signed_value(text::decimal(n), i32::MIN as int, i32::MAX as int) == Some(
            n as int,
        ));
    }
    if 0 < i < name.len() && !text::from_0_to_9(name[i]) || name.len() == 0 {
        text::anything_else_is_no_number(name, i, i32::MIN as int, i32::MAX as nat);
    }
    if 0 <= i < name.len() && !text::from_0_to_9(name[i]) {
        assert(!text::is_digit(name[i]));
    }
}

/// A task directory is gone through name by name: each that spells a number
/// gives that number, each other nothing.
pub proof fn numbers_are_listed_in_order(a: Seq<Seq<char>>, b: Seq<Seq<char>>, name: Seq<char>)
    ensures
        numbers_named(a + b) == numbers_named(a) + numbers_named(b),
        numbers_named(seq![name]) == match number_named(name) {
            Some(n) => seq![n],
            None => Seq::empty(),
        },
    decreases b.len(),
{
    let one = seq![name];
    assert(one.drop_last() =~= Seq::<Seq<char>>::empty());
    assert(numbers_named(one.drop_last()) =~= Seq::<i32>::empty());
    assert(numbers_named(one) =~= match number_named(name) {
        Some(n) => seq![n],
        None => Seq::empty(),
    });
    if b.len() == 0 {
        assert(a + b =~= a);
        assert(numbers_named(a) + numbers_named(b) =~= numbers_named(a));
    } else {
        numbers_are_listed_in_order(a, b.drop_last(), name);
        assert((a + b).drop_last() =~= a + b.drop_last());
        assert(numbers_named(a + b) =~= numbers_named(a) + numbers_named(b));
    }
}

/// The threads of a process are those that its task directory names, one
/// for one and in order, however many there are; only a directory without
/// any is an error.
pub proof fn threads_are_those_listed(pid: i32, tids: Seq<i32>, names: Seq<Seq<char>>)
    requires
        names.len() == tids.len(),
        forall|i: int| 0 <= i < tids.len() ==> #[trigger] tids[i] >= 0,
        forall|i: int|
            0 <= i < tids.len() ==> #[trigger] names[i] == text::decimal(tids[i] as nat),
    ensures
        tids.len() > 0 ==> threads_meaning(pid, Ok(names)) == Ok::<Seq<i32>, ErrorView>(tids),
        tids.len() == 0 ==> threads_meaning(pid, Ok(names)) == Err::<Seq<i32>, ErrorView>(
            ErrorView::Msg("process "@ + text::signed_decimal(pid as int) + " has no threads"@),
        ),
        threads_meaning(pid, Err(2)) == Err::<Seq<i32>, ErrorView>(
            ErrorView::Msg("no such process: "@ + text::signed_decimal(pid as int)),
        ),
        forall|errno: i32|
            errno != 2 ==> #[trigger] threads_meaning(pid, Err(errno)) == Err::<
                Seq<i32>,
                ErrorView,
            >(ErrorView::Os(errno)),
{
    lemma_numbers_of_decimals(tids, names);
}

proof fn lemma_numbers_of_decimals(tids: Seq<i32>, names: Seq<Seq<char>>)
    requires
        names.len() == tids.len(),
        forall|i: int| 0 <= i < tids.len() ==> #[trigger] tids[i] >= 0,
        forall|i: int|
            0 <= i < tids.len() ==> #[trigger] names[i] == text::decimal(tids[i] as nat),
    ensures
        numbers_named(names) == tids,
    decreases tids.len(),
{
    if tids.len() > 0 {
        let front = names.drop_last();
        assert forall|i: int| 0 <= i < tids.len() - 1 implies #[trigger] front[i]
            == text::decimal(tids.drop_last()[i] as nat) by {
            assert(names[i] == front[i]);
        }
        lemma_numbers_of_decimals(tids.drop_last(), front);
        let last = names[names.len() - 1];
        file_names_spell_numbers(tids.last() as nat, last, 0);
        assert(tids.drop_last().push(tids.last()) =~= tids);
    } else {
        assert(numbers_named(names) =~= tids);
    }
}

/// Text, a space, and a word.
pub open spec fn spaced(s: Seq<char>, w: Seq<char>) -> Seq<char> {
    s.push(' ') + w
}

/// The fields of a stat that follow the name, as the kernel writes them.
pub open spec fn stat_tail(
    state: Seq<char>,
    ppid: nat,
    pgrp: nat,
    session: nat,
    tty_nr: nat,
    rest: Seq<char>,
) -> Seq<char> {
    spaced(
        spaced(
            spaced(
                spaced(
                    spaced(spaced(Seq::empty(), state), text::decimal(ppid)),
                    text::decimal(pgrp),
                ),
                text::decimal(session),
            ),
            text::decimal(tty_nr),
        ),
        rest,
    )
}

/// A stat, as the kernel writes it: the process, its name in parentheses,
/// whatever the name holds, and the fields that follow.
pub open spec fn stat_line(pid: nat, name: Seq<char>, tail: Seq<char>) -> Seq<char> {
    (text::decimal(pid) + " ("@ + name).push(')') + tail
}

proof fn lemma_decimal_word(n: nat)
    ensures
        text::is_word(text::decimal(n)),
        !text::decimal(n).contains(')'),
{
    text::decimal_has_no_leading_zero(n);
    let w = text::decimal(n);
    assert forall|i: int| 0 <= i < w.len() implies !text::is_white_space(#[trigger] w[i]) by {
        assert(text::from_0_to_9(w[i]));
        text::printable_characters_are_no_white_space(w[i]);
    }
    if w.contains(')') {
        let i = choose|i: int| 0 <= i < w.len() && w[i] == ')';
        assert(text::from_0_to_9(w[i]));
    }
}

proof fn lemma_spaced(s: Seq<char>, w: Seq<char>)
    requires
        !s.contains(')'),
        !w.contains(')'),
    ensures
        !spaced(s, w).contains(')'),
        text::is_word(w) ==> text::fields(spaced(s, w)) == text::fields(s).push(w),
{
    let t = spaced(s, w);
    if t.contains(')') {
        let i = choose|i: int| 0 <= i < t.len() && t[i] == ')';
        if i < s.len() {
            assert(s[i] == ')');
        } else {
            assert(i > s.len());
            assert(w[i - s.len() - 1] == ')');
        }
    }
    if text::is_word(w) {
        text::white_space_separates_fields(s, ' ', w);
    }
}

proof fn lemma_stat_tail(
    state: Seq<char>,
    ppid: nat,
    pgrp: nat,
    session: nat,
    tty_nr: nat,
    rest: Seq<char>,
)
    requires
        text::is_word(state),
        !state.contains(')'),
        !rest.contains(')'),
    ensures
        ({
            let tail = stat_tail(state, ppid, pgrp, session, tty_nr, rest);
            let fields = text::fields(tail);
            &&& !tail.contains(')')
            &&& fields.len() >= 5
            &&& fields[1] == text::decimal(ppid)
            &&& fields[2] == text::decimal(pgrp)
            &&& fields[3] == text::decimal(session)
            &&& fields[4] == text::decimal(tty_nr)
        }),
{
    let t0 = spaced(Seq::empty(), state);
    lemma_spaced(Seq::empty(), state);
    text::white_space_separates_fields(Seq::empty(), ' ', state);
    let t1 = spaced(t0, text::decimal(ppid));
    lemma_decimal_word(ppid);
    lemma_spaced(t0, text::decimal(ppid));
    let t2 = spaced(t1, text::decimal(pgrp));
    lemma_decimal_word(pgrp);
    lemma_spaced(t1, text::decimal(pgrp));
    let t3 = spaced(t2, text::decimal(session));
    lemma_decimal_word(session);
    lemma_spaced(t2, text::decimal(session));
    let t4 = spaced(t3, text::decimal(tty_nr));
    lemma_decimal_word(tty_nr);
    lemma_spaced(t3, text::decimal(tty_nr));
    lemma_spaced(t4, rest);
    text::fields_add_up_around_white_space(t4, ' ', rest);
    assert(text::fields(t4).len() == 5);
}

/// What a stat says is read past the name, which may hold anything, spaces
/// and parentheses among it: the parent, the process group, the session and
/// the terminal are the numbers that the kernel wrote, whatever they are.
pub proof fn stat_is_read_past_the_name(
    pid: nat,
    name: Seq<char>,
    state: Seq<char>,
    ppid: nat,
    pgrp: nat,
    session: nat,
    tty_nr: nat,
    rest: Seq<char>,
)
    requires
        text::is_word(state),
        !state.contains(')'),
        !rest.contains(')'),
        pgrp <= u64::MAX,
        session <= u64::MAX,
        tty_nr <= u64::MAX,
    ensures
        ({
            let stat = stat_line(
                pid,
                name,
                stat_tail(state, ppid, pgrp, session, tty_nr, rest),
            );
            &&& stat_meaning(stat) == Ok::<(u64, u64, u64), ErrorView>(
                (pgrp as u64, session as u64, tty_nr as u64),
            )
            &&& ppid <= i32::MAX ==> parent_meaning(stat) == Ok::<i32, ErrorView>(ppid as i32)
            &&& session <= i32::MAX ==> session_meaning(stat) == Ok::<i32, ErrorView>(
                session as i32,
            )
            &&& forall|p: i32|
                p >= 0 ==> #[trigger] leads_session(p, stat) == Ok::<bool, ErrorView>(
                    session == p,
                )
            &&& tty_meaning(stat) matches Ok(tty) && (tty is None <==> tty_nr == 0)
        }),
{
    let tail = stat_tail(state, ppid, pgrp, session, tty_nr, rest);
    let stat = stat_line(pid, name, tail);
    lemma_stat_tail(state, ppid, pgrp, session, tty_nr, rest);
    text::last_occurrence_cuts(text::decimal(pid) + " ("@ + name, ')', tail);
    assert(stat_fields(stat) == text::fields(tail));
    text::decimal_reads_back(pgrp);
    text::decimal_reads_back(session);
    text::decimal_reads_back(tty_nr);
    file_names_spell_numbers(ppid, name, 0);
    let hi = u64::MAX as nat;
    assert(text::unsigned_value(text::decimal(pgrp), hi) == Some(pgrp));
    assert(text::unsigned_value(text::decimal(session), hi) == Some(session));
    assert(text::unsigned_value(text::decimal(tty_nr), hi) == Some(tty_nr));
}

/// The controlling terminal comes back as the major and minor number that
/// the kernel encoded.
pub proof fn terminal_is_the_one_encoded(
    pid: nat,
    name: Seq<char>,
    state: Seq<char>,
    ppid: nat,
    pgrp: nat,
    session: nat,
    major: u64,
    minor: u64,
    rest: Seq<char>,
)
    requires
        text::is_word(state),
        !state.contains(')'),
        !rest.contains(')'),
        pgrp <= u64::MAX,
        session <= u64::MAX,
        major > 0 || minor > 0,
        major < 0x1000,
        minor < 0x10_0000,
    ensures
        ({
            let tty_nr = encode_dev(major, minor) as nat;
            let stat = stat_line(
                pid,
                name,
                stat_tail(state, ppid, pgrp, session, tty_nr, rest),
            );
            tty_meaning(stat) == Ok::<Option<(u64, u64)>, ErrorView>(Some((major, minor)))
        }),
{
    let t = encode_dev(major, minor);
    decoding_undoes_encoding(major, minor);
    assert((0u64 >> 8) & 0xfff == 0 && (0u64 & 0xff) | ((0u64 >> 12) & 0xfff00) == 0)
        by (bit_vector);
    assert(t != 0);
    stat_is_read_past_the_name(pid, name, state, ppid, pgrp, session, t as nat, rest);
}

/// A stat with too few fields behind the name, or with something else than
/// a number where one is due, is malformed.
pub proof fn malformed_stats_are_refused(front: Seq<char>, tail: Seq<char>, i: int)
    requires
        !tail.contains(')'),
        text::fields(tail).len() < 5 || (2 <= i <= 4 && text::unsigned_value(
            text::fields(tail)[i],
            u64::MAX as nat,
        ) is None),
    ensures
        stat_meaning(front.push(')') + tail) == Err::<(u64, u64, u64), ErrorView>(
            ErrorView::Msg("malformed /proc/<pid>/stat"@),
        ),
        tty_meaning(front.push(')') + tail) == Err::<Option<(u64, u64)>, ErrorView>(
            ErrorView::Msg("malformed /proc/<pid>/stat"@),
        ),
        text::fields(tail).len() < 2 ==> parent_meaning(front.push(')') + tail) == Err::<
            i32,
            ErrorView,
        >(ErrorView::Msg("malformed /proc/<pid>/stat"@)),
{
    text::last_occurrence_cuts(front, ')', tail);
}

/// Whether an entry of /proc stands for the process `pid` and its stat
/// reads as the process group `pgrp`: its name is a number in digits, of
/// that value.
pub open spec fn stands_for_member(entry: ProcEntryView, pid: i32, pgrp: i32) -> bool {
    &&& entry.name.len() > 0
    &&& forall|i: int| 0 <= i < entry.name.len() ==> text::from_0_to_9(#[trigger] entry.name[i])
    &&& text::unsigned_value(entry.name, i32::MAX as nat) == Some(pid as nat)
    &&& pid >= 0
    &&& entry.stat matches Some(stat)
    &&& stat_meaning(stat) matches Ok(ids)
    &&& ids.0 == pgrp as u64
}

proof fn lemma_member(entry: ProcEntryView, pid: i32, pgrp: i32)
    ensures
        member_of(pgrp, entry) == Some(pid) <==> stands_for_member(entry, pid, pgrp),
{
    let name = entry.name;
    if name.len() > 0 && text::all_digits(name) {
        assert forall|i: int| 0 <= i < name.len() implies text::from_0_to_9(#[trigger] name[i]) by {
            assert(text::is_digit(name[i]));
        }
        text::signs_are_read(name, i32::MIN as int, i32::MAX as nat);
    }
    if forall|i: int| 0 <= i < name.len() ==> text::from_0_to_9(#[trigger] name[i]) {
        assert forall|i: int| 0 <= i < name.len() implies text::is_digit(#[trigger] name[i]) by {
            assert(text::from_0_to_9(name[i]));
        }
    }
    if name.len() == 0 {
        text::anything_else_is_no_number(name, 0, i32::MIN as int, i32::MAX as nat);
    }
}

/// A process is listed exactly when an entry of /proc stands for it and its
/// stat reads as the group that is asked for, whatever the process is: the
/// leader of the group, whose number is the group's, like any other.
pub proof fn group_members_are_all_found(pgrp: i32, entries: Seq<ProcEntry>, pid: i32)
    ensures
        members_of(pgrp, entries).contains(pid) <==> exists|i: int|
            0 <= i < entries.len() && stands_for_member((#[trigger] entries[i])@, pid, pgrp),
    decreases entries.len(),
{
    if entries.len() > 0 {
        let front = entries.drop_last();
        let last = entries.last();
        group_members_are_all_found(pgrp, front, pid);
        lemma_member(last@, pid, pgrp);
        let before = members_of(pgrp, front);
        let all = members_of(pgrp, entries);
        assert(entries[entries.len() - 1] == last);
        assert(forall|i: int| 0 <= i < front.len() ==> front[i] == entries[i]);
        if before.contains(pid) {
            let j = choose|j: int| 0 <= j < before.len() && before[j] == pid;
            assert(all[j] == pid);
        }
        if stands_for_member(last@, pid, pgrp) {
            assert(all[all.len() - 1] == pid);
        }
        if all.contains(pid) && !before.contains(pid) {
            let j = choose|j: int| 0 <= j < all.len() && all[j] == pid;
            if j < before.len() {
                assert(before[j] == pid);
            }
        }
        if exists|i: int|
            0 <= i < entries.len() && stands_for_member((#[trigger] entries[i])@, pid, pgrp) {
            let i = choose|i: int|
                0 <= i < entries.len() && stands_for_member(
                    (#[trigger] entries[i])@,
                    pid,
                    pgrp,
                );
            if i < front.len() {
                assert(front[i] == entries[i]);
            }
        }
    }
}

/// The entry that /proc has for a process, with a stat as the kernel writes
/// it, puts the process into its group: into the one whose number it bears
/// as into any other, and into no further one.
pub proof fn entry_belongs_to_its_group(
    pgrp: i32,
    entries: Seq<ProcEntry>,
    i: int,
    pid: nat,
    name: Seq<char>,
    state: Seq<char>,
    ppid: nat,
    group: nat,
    session: nat,
    tty_nr: nat,
    rest: Seq<char>,
)
    requires
        0 <= i < entries.len(),
        pid <= i32::MAX,
        pgrp >= 0,
        group <= i32::MAX,
        session <= u64::MAX,
        tty_nr <= u64::MAX,
        text::is_word(state),
        !state.contains(')'),
        !rest.contains(')'),
        entries[i]@.name == text::decimal(pid),
        entries[i]@.stat == Some(
            stat_line(pid, name, stat_tail(state, ppid, group, session, tty_nr, rest)),
        ),
    ensures
        group == pgrp ==> members_of(pgrp, entries).contains(pid as i32),
        members_of(pgrp, seq![entries[i]]) == if group == pgrp {
            seq![pid as i32]
        } else {
            Seq::empty()
        },
{
    stat_is_read_past_the_name(pid, name, state, ppid, group, session, tty_nr, rest);
    text::decimal_has_no_leading_zero(pid);
    text::decimal_reads_back(pid);
    assert(text::unsigned_value(text::decimal(pid), i32::MAX as nat) == Some(pid));
    group_members_are_all_found(pgrp, entries, pid as i32);
    if group == pgrp {
        assert(stands_for_member(entries[i]@, pid as i32, pgrp));
    }
    let one = seq![entries[i]];
    assert(one.drop_last() =~= Seq::<ProcEntry>::empty());
    assert(members_of(pgrp, one.drop_last()) =~= Seq::<i32>::empty());
    lemma_member(entries[i]@, pid as i32, pgrp);
    assert(members_of(pgrp, one) =~= if group == pgrp {
        seq![pid as i32]
    } else {
        Seq::empty()
    }) by {
        if group != pgrp {
            assert(member_of(pgrp, entries[i]@) is None);
        }
    }
}

/// The entries of /proc are gone through one by one, in order.
pub proof fn group_members_are_listed_in_order(
    pgrp: i32,
    a: Seq<ProcEntry>,
    b: Seq<ProcEntry>,
)
    ensures
        members_of(pgrp, a + b) == members_of(pgrp, a) + members_of(pgrp, b),
    decreases b.len(),
{
    if b.len() == 0 {
        assert(a + b =~= a);
        assert(members_of(pgrp, a) + members_of(pgrp, b) =~= members_of(pgrp, a));
    } else {
        group_members_are_listed_in_order(pgrp, a, b.drop_last());
        assert((a + b).drop_last() =~= a + b.drop_last());
        assert(members_of(pgrp, a + b) =~= members_of(pgrp, a) + members_of(pgrp, b));
    }
}

/// A device number as the C library composes it from a major and a minor.
pub open spec fn composed(major: u32, minor: u32) -> u64 {
    ((major as u64 & 0xfff) << 8) | ((major as u64 & 0xffff_f000) << 32) | (minor as u64 & 0xff)
        | ((minor as u64 & 0xffff_ff00) << 12)
}

/// The major and minor number of a device number are those that it was
/// composed of.
pub proof fn device_numbers_come_apart(a: u32, b: u32)
    ensures
        major_of(composed(a, b)) == a,
        minor_of(composed(a, b)) == b,
{
    let dev: u64 = ((a as u64 & 0xfff) << 8) | ((a as u64 & 0xffff_f000) << 32) | (b as u64 & 0xff)
        | ((b as u64 & 0xffff_ff00) << 12);
    assert((((dev & 0xfff00) >> 8) | ((dev & 0xffff_f000_0000_0000) >> 32)) as u32 == a
        && ((dev & 0xff) | ((dev & 0xfff_fff0_0000) >> 12)) as u32 == b) by (bit_vector)
        requires
            dev == ((a as u64 & 0xfff) << 8) | ((a as u64 & 0xffff_f000) << 32) | (b as u64 & 0xff)
                | ((b as u64 & 0xffff_ff00) << 12),
    ;
}

/// Whether an entry of an fd directory is the fd `fd`, on the character
/// device that is composed of the numbers `dev`.
pub open spec fn is_on(entry: FdEntry, fd: i32, dev: (u64, u64)) -> bool {
    &&& text::signed_value(entry.name@, i32::MIN as int, i32::MAX as int) == Some(fd as int)
    &&& entry.device matches Some(device)
    &&& device.is_char
    &&& dev.0 <= u32::MAX && dev.1 <= u32::MAX
    &&& device.rdev == composed(dev.0 as u32, dev.1 as u32)
}

proof fn lemma_on_tty(entry: FdEntry, fd: i32, dev: (u64, u64))
    ensures
        fd_on_tty(entry, dev) == Some(fd) <==> is_on(entry, fd, dev),
{
    if let Some(device) = entry.device {
        let d = device.rdev;
        let a = major_of(d);
        let b = minor_of(d);
        let x: u32 = (((d & 0xfff00) >> 8) | ((d & 0xffff_f000_0000_0000) >> 32)) as u32;
        let y: u32 = ((d & 0xff) | ((d & 0xfff_fff0_0000) >> 12)) as u32;
        assert(d == ((x as u64 & 0xfff) << 8) | ((x as u64 & 0xffff_f000) << 32) | (y as u64
            & 0xff) | ((y as u64 & 0xffff_ff00) << 12)) by (bit_vector)
            requires
                x == (((d & 0xfff00) >> 8) | ((d & 0xffff_f000_0000_0000) >> 32)) as u32,
                y == ((d & 0xff) | ((d & 0xfff_fff0_0000) >> 12)) as u32,
        ;
        assert(d == composed(a, b));
        if dev.0 <= u32::MAX && dev.1 <= u32::MAX {
            device_numbers_come_apart(dev.0 as u32, dev.1 as u32);
        }
    }
}

/// The fds on a terminal are exactly those whose entry is a character
/// device with the terminal's numbers, entry by entry and in order.
pub proof fn terminal_fds_are_all_found(
    a: Seq<FdEntry>,
    b: Seq<FdEntry>,
    dev: (u64, u64),
    fd: i32,
)
    ensures
        tty_fds(b, dev).contains(fd) <==> exists|i: int|
            0 <= i < b.len() && is_on(#[trigger] b[i], fd, dev),
        tty_fds(a + b, dev) == tty_fds(a, dev) + tty_fds(b, dev),
        b.len() == 1 && is_on(b[0], fd, dev) ==> tty_fds(b, dev) == seq![fd],
        tty_fds(b, dev).len() <= b.len(),
    decreases b.len(),
{
    let all = tty_fds(b, dev);
    if b.len() == 0 {
        assert(a + b =~= a);
        assert(tty_fds(a, dev) + tty_fds(b, dev) =~= tty_fds(a, dev));
    } else {
        let front = b.drop_last();
        let last = b.last();
        terminal_fds_are_all_found(a, front, dev, fd);
        lemma_on_tty(last, fd, dev);
        let before = tty_fds(front, dev);
        assert((a + b).drop_last() =~= a + front);
        assert(tty_fds(a + b, dev) =~= tty_fds(a, dev) + all);
        assert(b[b.len() - 1] == last);
        assert(forall|i: int| 0 <= i < front.len() ==> front[i] == b[i]);
        if b.len() == 1 && is_on(b[0], fd, dev) {
            assert(before =~= Seq::<i32>::empty());
            assert(all =~= seq![fd]);
        }
        if before.contains(fd) {
            let j = choose|j: int| 0 <= j < before.len() && before[j] == fd;
            assert(all[j] == fd);
        }
        if is_on(last, fd, dev) {
            assert(all[all.len() - 1] == fd);
        }
        if all.contains(fd) && !before.contains(fd) {
            let j = choose|j: int| 0 <= j < all.len() && all[j] == fd;
            if j < before.len() {
                assert(before[j] == fd);
            }
        }
        if exists|i: int| 0 <= i < b.len() && is_on(#[trigger] b[i], fd, dev) {
            let i = choose|i: int| 0 <= i < b.len() && is_on(#[trigger] b[i], fd, dev);
            if i < front.len() {
                assert(front[i] == b[i]);
            }
        }
    }
}

/// Whether an fd is to be redirected: it is on the controlling terminal, or
/// is one of 0 to 2 and these are forced; and its stream is selected, if it
/// is one of 0 to 2.
pub open spec fn to_be_redirected(
    dev: Option<(u64, u64)>,
    entries: Seq<FdEntry>,
    streams: Streams,
    force_stdio: bool,
    fd: i32,
) -> bool {
    let on_tty = dev matches Some(dev) && exists|i: int|
        0 <= i < entries.len() && is_on(#[trigger] entries[i], fd, dev);
    &&& on_tty || (force_stdio && 0 <= fd <= 2)
    &&& fd == 0 ==> streams.stdin
    &&& fd == 1 ==> streams.stdout
    &&& fd == 2 ==> streams.stderr
}

/// The fds that are redirected are exactly those that are to be, in
/// ascending order, and each once where the directory lists each once; it
/// is an error only when there is none.
pub proof fn redirected_fds_are_exactly_those_to_be(
    dev: Option<(u64, u64)>,
    entries: Seq<FdEntry>,
    streams: Streams,
    force_stdio: bool,
    fd: i32,
)
    ensures
        match redirection_meaning(dev, entries, streams, force_stdio) {
            Ok(fds) => {
                &&& fds.len() > 0
                &&& fds.contains(fd) <==> to_be_redirected(dev, entries, streams, force_stdio, fd)
                &&& forall|i: int, j: int|
                    0 <= i < j < fds.len() ==> #[trigger] fds[i] <= #[trigger] fds[j]
                &&& dev is Some && tty_fds(entries, dev->0).no_duplicates() ==> fds.no_duplicates()
                &&& dev is None ==> fds.no_duplicates()
            },
            Err(e) => {
                &&& !to_be_redirected(dev, entries, streams, force_stdio, fd)
                &&& e == ErrorView::Msg(
                    "target has no file descriptors on a terminal; use -s to force fds 0, 1, 2"@,
                )
            },
        },
{
    let fds = chosen(dev, entries, streams, force_stdio);
    list::lemma_can_be_arranged(None, fds);
    let r = list::arranged(None, fds);
    if let Some(d) = dev {
        terminal_fds_are_all_found(Seq::empty(), entries, d, fd);
    }
    redirected_fds_are_the_wanted_ones(dev, entries, streams, force_stdio, r, fd);
    if fds.len() > 0 {
        assert forall|i: int, j: int| 0 <= i < j < r.len() implies #[trigger] r[i]
            <= #[trigger] r[j] by {
            assert(list::precedes(None, r[i], r[j]));
        }
    }
    let on_tty = match dev {
        Some(dev) => tty_fds(entries, dev),
        None => Seq::empty(),
    };
    if on_tty.no_duplicates() {
        let three = seq![0i32, 1, 2];
        let absent = |x: i32| !on_tty.contains(x);
        list::lemma_filter(three, absent);
        list::lemma_filter_distinct(three, absent);
        let all = candidates(on_tty, force_stdio);
        assert(all.no_duplicates()) by {
            if force_stdio {
                let more = missing_stdio(on_tty);
                assert(more == three.filter(absent));
                assert forall|i: int, j: int|
                    0 <= i < all.len() && 0 <= j < all.len() && i != j implies all[i]
                    != all[j] by {
                    let n = on_tty.len() as int;
                    if i >= n {
                        assert(more.contains(more[i - n]));
                    }
                    if j >= n {
                        assert(more.contains(more[j - n]));
                    }
                    if i < n {
                        assert(on_tty.contains(all[i]));
                    }
                    if j < n {
                        assert(on_tty.contains(all[j]));
                    }
                }
            }
        }
        list::lemma_filter_distinct(all, selected(streams));
        fds.lemma_multiset_has_no_duplicates();
        fds.to_multiset_ensures();
        r.to_multiset_ensures();
        r.lemma_multiset_has_no_duplicates_conv();
    }
}

/// The terminal's path is the first link that could be read, with nothing
/// but unreadable ones before it; without any it cannot be told.
pub proof fn first_readable_link_is_the_path(links: Seq<Option<String>>, i: int)
    requires
        0 <= i <= links.len(),
        forall|j: int| 0 <= j < i ==> #[trigger] links[j] is None,
        i < links.len() ==> links[i] is Some,
    ensures
        i < links.len() ==> path_meaning(links) == Ok::<Seq<char>, ErrorView>(links[i]->0@),
        i == links.len() ==> path_meaning(links) == Err::<Seq<char>, ErrorView>(
            ErrorView::Msg("cannot determine the target's terminal path"@),
        ),
    decreases links.len(),
{
    if links.len() > 0 {
        let front = links.drop_last();
        assert(forall|j: int| 0 <= j < front.len() ==> front[j] == links[j]);
        if i < links.len() {
            first_readable_link_is_the_path(front, if i < front.len() {
                i
            } else {
                front.len() as int
            });
        } else {
            first_readable_link_is_the_path(front, front.len() as int);
        }
    }
}

/// A device number is decoded by its low 32 bits alone, and these come back
/// when it is encoded again.
pub proof fn every_device_number_is_decoded(tty_nr: u64)
    ensures
        decode_dev(tty_nr).0 < 0x1000,
        decode_dev(tty_nr).1 < 0x10_0000,
        encode_dev(decode_dev(tty_nr).0, decode_dev(tty_nr).1) == tty_nr % 0x1_0000_0000,
{
    let a: u64 = (tty_nr >> 8) & 0xfff;
    let b: u64 = (tty_nr & 0xff) | ((tty_nr >> 12) & 0xfff00);
    assert(a < 0x1000 && b < 0x10_0000 && (b & 0xff) | (a << 8) | ((b & 0xfff00) << 12) == tty_nr
        % 0x1_0000_0000) by (bit_vector)
        requires
            a == (tty_nr >> 8) & 0xfff,
            b == (tty_nr & 0xff) | ((tty_nr >> 12) & 0xfff00),
    ;
}

/// What a stat says is what its fields behind the name say, by their
/// places: the second is the parent, the third the process group, the
/// fourth the session, which also tells whether a process leads it, and the
/// fifth the terminal; every field may be written in any way that a number
/// can be.
pub proof fn stat_fields_by_their_places(front: Seq<char>, tail: Seq<char>, pid: i32)
    requires
        !tail.contains(')'),
        text::fields(tail).len() >= 5,
    ensures
        ({
            let stat = front.push(')') + tail;
            let f = text::fields(tail);
            let hi = 0xffff_ffff_ffff_ffff;
            let group = text::unsigned_value(f[2], hi);
            let session = text::unsigned_value(f[3], hi);
            let tty = text::unsigned_value(f[4], hi);
            let ppid = text::signed_value(f[1], -0x8000_0000, 0x7fff_ffff);
            &&& ppid matches Some(p) ==> parent_meaning(stat) == Ok::<i32, ErrorView>(p as i32)
            &&& ppid is None ==> parent_meaning(stat) is Err
            &&& group is Some && session is Some && tty is Some ==> {
                &&& stat_meaning(stat) == Ok::<(u64, u64, u64), ErrorView>(
                    (group->0 as u64, session->0 as u64, tty->0 as u64),
                )
                &&& session_meaning(stat) matches Ok(sid) && (session->0 <= 0x7fff_ffff ==> sid
                    == session->0)
                &&& leads_session(pid, stat) matches Ok(leads) && (session->0
                    <= 0x7fff_ffff_ffff_ffff ==> leads == (session->0 == pid))
                &&& tty_meaning(stat) == Ok::<Option<(u64, u64)>, ErrorView>(
                    if tty->0 == 0 {
                        None
                    } else {
                        Some(decode_dev(tty->0 as u64))
                    },
                )
            }
        }),
{
    text::last_occurrence_cuts(front, ')', tail);
    assert(pid < 0 ==> pid as u64 > 0x7fff_ffff_ffff_ffff) by (bit_vector);
}

/// A name with a sign spells a number too, where only the sign and digits
/// are in it.
pub proof fn signed_names_spell_numbers(n: nat)
    requires
        n <= 0x7fff_ffff,
    ensures
        number_named(seq!['-'] + text::decimal(n)) == Some((-n) as i32),
        number_named(seq!['+'] + text::decimal(n)) == Some(n as i32),
        process_named(seq!['-'] + text::decimal(n)) is None,
        process_named(seq!['+'] + text::decimal(n)) is None,
{
    let digits = text::decimal(n);
    text::decimal_has_no_leading_zero(n);
    text::decimal_reads_back(n);
    text::signs_are_read(digits, i32::MIN as int, i32::MAX as nat);
    assert(text::unsigned_value(digits, i32::MAX as nat) == Some(n));
    assert(text::unsigned_value(digits, 0x8000_0000) == Some(n));
    assert(!text::is_digit((seq!['-'] + digits)[0]));
    assert(!text::is_digit((seq!['+'] + digits)[0]));
}

} // verus!
