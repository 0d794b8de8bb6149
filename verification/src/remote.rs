//! Requests to work inside a hijacked thread, and their answers.

use vstd::prelude::*;

use crate::abi::SUN_PATH_LEN;
use crate::error::{Error, ErrorView};
use crate::text;
use crate::text::{copy_text, push_signed};

verus! {

/// What to do inside a hijacked thread, or around it.
#[derive(Debug)]
pub enum Request {
    /// Run a syscall in the thread.
    Call { nr: u64, args: [u64; 6] },
    /// Write bytes into the thread's memory.
    Write { addr: u64, data: Vec<u8> },
    /// Read a word of the thread's memory.
    Read { addr: u64 },
    /// Fork a child off the thread.
    Fork,
    /// Take control of the forked child.
    Adopt { child: i32 },
    /// Run a syscall in the forked child.
    CallChild { nr: u64, args: [u64; 6] },
    /// List the processes of a process group.
    ListGroup { pgrp: i32 },
    /// Let a process go.
    Detach { tid: i32 },
    /// Wait for a process.
    Reap { tid: i32 },
    /// List the fds of a process that are pty masters.
    ListMasters { pid: i32 },
    /// Open the socket that takes a file descriptor over.
    Bind,
    /// Receive a file descriptor through the socket.
    Receive,
    /// Make a process ignore SIGHUP.
    Shield { pid: i32 },
}

/// A [`Request`] with sequences in place of lists.
#[verifier::ext_equal]
pub enum RequestView {
    Call { nr: u64, args: Seq<u64> },
    Write { addr: u64, data: Seq<u8> },
    Read { addr: u64 },
    Fork,
    Adopt { child: i32 },
    CallChild { nr: u64, args: Seq<u64> },
    ListGroup { pgrp: i32 },
    Detach { tid: i32 },
    Reap { tid: i32 },
    ListMasters { pid: i32 },
    Bind,
    Receive,
    Shield { pid: i32 },
}

impl View for Request {
    type V = RequestView;

    open spec fn view(&self) -> RequestView {
        match self {
            Request::Call { nr, args } => RequestView::Call { nr: *nr, args: args@ },
            Request::Write { addr, data } => RequestView::Write { addr: *addr, data: data@ },
            Request::Read { addr } => RequestView::Read { addr: *addr },
            Request::Fork => RequestView::Fork,
            Request::Adopt { child } => RequestView::Adopt { child: *child },
            Request::CallChild { nr, args } => RequestView::CallChild { nr: *nr, args: args@ },
            Request::ListGroup { pgrp } => RequestView::ListGroup { pgrp: *pgrp },
            Request::Detach { tid } => RequestView::Detach { tid: *tid },
            Request::Reap { tid } => RequestView::Reap { tid: *tid },
            Request::ListMasters { pid } => RequestView::ListMasters { pid: *pid },
            Request::Bind => RequestView::Bind,
            Request::Receive => RequestView::Receive,
            Request::Shield { pid } => RequestView::Shield { pid: *pid },
        }
    }
}

/// What a request brought back.
#[derive(Debug)]
pub enum Answer {
    Done,
    /// The return value of a syscall; negative values are -errno.
    Value(i64),
    Word(u64),
    /// A process or a file descriptor.
    Number(i32),
    Numbers(Vec<i32>),
    /// The path that the socket is bound to.
    Path(Vec<u8>),
    Failed(Error),
}

/// An [`Answer`] with sequences in place of lists.
pub enum AnswerView {
    Done,
    Value(i64),
    Word(u64),
    Number(i32),
    Numbers(Seq<i32>),
    Path(Seq<u8>),
    Failed(ErrorView),
}

impl View for Answer {
    type V = AnswerView;

    open spec fn view(&self) -> AnswerView {
        match self {
            Answer::Done => AnswerView::Done,
            Answer::Value(value) => AnswerView::Value(*value),
            Answer::Word(word) => AnswerView::Word(*word),
            Answer::Number(number) => AnswerView::Number(*number),
            Answer::Numbers(numbers) => AnswerView::Numbers(numbers@),
            Answer::Path(path) => AnswerView::Path(path@),
            Answer::Failed(e) => AnswerView::Failed(e@),
        }
    }
}

/// Whether `answer` can be the answer to `request`. A syscall returns a
/// value whose negation exists.
pub open spec fn answers(request: RequestView, answer: AnswerView) -> bool {
    ||| answer is Failed
    ||| match request {
        RequestView::Call { .. } | RequestView::CallChild { .. } => answer matches AnswerView::Value(
            value,
        ) && value > i64::MIN,
        RequestView::Read { .. } => answer is Word,
        RequestView::Fork | RequestView::Receive => answer is Number,
        RequestView::ListGroup { .. } | RequestView::ListMasters { .. } => answer is Numbers,
        RequestView::Bind => answer matches AnswerView::Path(path) && path.len() < SUN_PATH_LEN,
        _ => answer is Done,
    }
}

/// What an operation does next.
pub enum Step<T> {
    Do(Request),
    Finish(Result<T, Error>),
}

/// A [`Step`] with its parts taken by their views.
#[verifier::ext_equal]
pub enum StepView<T> {
    Do(RequestView),
    Finish(Result<T, ErrorView>),
}

impl<T> View for Step<T> {
    type V = StepView<T>;

    open spec fn view(&self) -> StepView<T> {
        match self {
            Step::Do(request) => StepView::Do(request@),
            Step::Finish(Ok(value)) => StepView::Finish(Ok(*value)),
            Step::Finish(Err(e)) => StepView::Finish(Err(e@)),
        }
    }
}

/// The error of a syscall that returned -errno.
pub open spec fn failed(what: Seq<char>, value: i64) -> ErrorView {
    ErrorView::Msg(what + " failed (errno "@ + text::signed_decimal(-value) + ")"@)
}

/// The error of a syscall that returned -errno.
pub fn failure(what: &str, value: i64) -> (e: Error)
    requires
        value > i64::MIN,
    ensures
        e@ == failed(what@, value),
{
    let mut m: String = copy_text(what);
    m.append(" failed (errno ");
    push_signed(&mut m, -value);
    m.append(")");
    Error::Msg(m)
}

/// A refused call is reported by what it was and by its error number, in
/// decimal and without the sign.
pub proof fn refusal_names_the_error_number(what: Seq<char>, errno: nat, value: i64)
    requires
        value == -errno,
    ensures
        failed(what, value) == ErrorView::Msg(
            what + " failed (errno "@ + text::decimal(errno) + ")"@,
        ),
{
}

} // verus!
