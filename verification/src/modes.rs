//! The modes of the tool, from the parsed command line to the relay.

use vstd::prelude::*;

use crate::error::{Error, ErrorView};
use crate::inject::{Plan, PlanView};
use crate::target::FdEntry;
use crate::text;

pub mod attach;
pub mod pty;
pub mod steal_tty;

verus! {

/// What a mode asks for.
#[derive(Debug)]
pub enum Request {
    /// Read the command line of a process.
    ReadCmdline { pid: i32 },
    /// Read the stat of a process.
    ReadStat { pid: i32 },
    /// List the fds of a process, with their devices.
    ListFds { pid: i32 },
    /// Read the links of some fds of a process.
    ReadLinks { pid: i32, fds: Vec<i32> },
    /// Open a fresh pty master, and unlock its slave.
    OpenPty,
    /// Read the terminal attributes of an fd of a process.
    ProbeTermios { pid: i32, fd: i32 },
    /// Give the fresh pty the terminal attributes that were read last.
    CopyTermios,
    /// Execute a plan inside a process.
    Move { pid: i32, plan: Plan },
    /// Take the master end of the pty `ptn`, on which the session `sid`
    /// runs, out of an emulator.
    Steal { emulator: i32, ptn: u32, sid: i32 },
    /// Tell the user the path of the fresh pty's slave.
    Announce { path: String },
    /// Start a command for the fresh pty, with `login` on it.
    Spawn { command: Vec<String>, slave: String, login: bool },
    /// Relay between the pty master and the current terminal.
    Relay { exit_on_eio: bool },
    /// Wait for the command to exit.
    WaitChild,
}

#[verifier::ext_equal]
pub enum RequestView {
    ReadCmdline { pid: i32 },
    ReadStat { pid: i32 },
    ListFds { pid: i32 },
    ReadLinks { pid: i32, fds: Seq<i32> },
    OpenPty,
    ProbeTermios { pid: i32, fd: i32 },
    CopyTermios,
    Move { pid: i32, plan: PlanView },
    Steal { emulator: i32, ptn: u32, sid: i32 },
    Announce { path: Seq<char> },
    Spawn { command: Seq<Seq<char>>, slave: Seq<char>, login: bool },
    Relay { exit_on_eio: bool },
    WaitChild,
}

impl View for Request {
    type V = RequestView;

    open spec fn view(&self) -> RequestView {
        match self {
            Request::ReadCmdline { pid } => RequestView::ReadCmdline { pid: *pid },
            Request::ReadStat { pid } => RequestView::ReadStat { pid: *pid },
            Request::ListFds { pid } => RequestView::ListFds { pid: *pid },
            Request::ReadLinks { pid, fds } => RequestView::ReadLinks { pid: *pid, fds: fds@ },
            Request::OpenPty => RequestView::OpenPty,
            Request::ProbeTermios { pid, fd } => RequestView::ProbeTermios { pid: *pid, fd: *fd },
            Request::CopyTermios => RequestView::CopyTermios,
            Request::Move { pid, plan } => RequestView::Move { pid: *pid, plan: plan@ },
            Request::Steal { emulator, ptn, sid } => RequestView::Steal {
                emulator: *emulator,
                ptn: *ptn,
                sid: *sid,
            },
            Request::Announce { path } => RequestView::Announce { path: path@ },
            Request::Spawn { command, slave, login } => RequestView::Spawn {
                command: text::texts(command@),
                slave: slave@,
                login: *login,
            },
            Request::Relay { exit_on_eio } => RequestView::Relay { exit_on_eio: *exit_on_eio },
            Request::WaitChild => RequestView::WaitChild,
        }
    }
}

/// What a request brought back.
#[derive(Debug)]
pub enum Answer {
    Done,
    Bytes(Vec<u8>),
    Text(String),
    Fds(Vec<FdEntry>),
    Links(Vec<Option<String>>),
    /// The number of the fresh pty.
    Pty(u32),
    Yes(bool),
    Failed(Error),
}

pub enum AnswerView {
    Done,
    Bytes(Seq<u8>),
    Text(Seq<char>),
    Fds(Seq<FdEntry>),
    Links(Seq<Option<String>>),
    Pty(u32),
    Yes(bool),
    Failed(ErrorView),
}

impl View for Answer {
    type V = AnswerView;

    open spec fn view(&self) -> AnswerView {
        match self {
            Answer::Done => AnswerView::Done,
            Answer::Bytes(bytes) => AnswerView::Bytes(bytes@),
            Answer::Text(text) => AnswerView::Text(text@),
            Answer::Fds(fds) => AnswerView::Fds(fds@),
            Answer::Links(links) => AnswerView::Links(links@),
            Answer::Pty(number) => AnswerView::Pty(*number),
            Answer::Yes(yes) => AnswerView::Yes(*yes),
            Answer::Failed(e) => AnswerView::Failed(e@),
        }
    }
}

/// Whether `answer` can be the answer to `request`.
pub open spec fn answers(request: RequestView, answer: AnswerView) -> bool {
    match request {
        RequestView::ReadCmdline { .. } => answer is Bytes || answer is Failed,
        RequestView::ReadStat { .. } => answer is Text || answer is Failed,
        RequestView::ListFds { .. } => answer is Fds || answer is Failed,
        RequestView::ReadLinks { .. } => answer is Links,
        RequestView::OpenPty => answer is Pty || answer is Failed,
        RequestView::ProbeTermios { .. } => answer is Yes,
        _ => answer is Done || answer is Failed,
    }
}

/// What a mode does next.
pub enum Step {
    Do(Request),
    Finish(Result<(), Error>),
}

#[verifier::ext_equal]
pub enum StepView {
    Do(RequestView),
    Finish(Result<(), ErrorView>),
}

impl View for Step {
    type V = StepView;

    open spec fn view(&self) -> StepView {
        match self {
            Step::Do(request) => StepView::Do(request@),
            Step::Finish(Ok(value)) => StepView::Finish(Ok(*value)),
            Step::Finish(Err(e)) => StepView::Finish(Err(e@)),
        }
    }
}

} // verus!
