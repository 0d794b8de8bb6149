//! The command line.

use vstd::prelude::*;

use crate::error;
use crate::error::{msg, Error, ErrorView};
use crate::text;
use crate::text::{chars_of, copy_text, parse_i64, same_text, split};

verus! {

pub const VERSION: &'static str = "0.1.0";

pub const USAGE: &'static str = "reptyr-rs — reparent a running program to a new terminal\n\
     \n\
     USAGE:\n\
     \x20   reptyr-rs [-s] [-V] PID [STREAMS]\n\
     \x20   reptyr-rs -T [-V] PID\n\
     \x20   reptyr-rs -l|-L [-V] [COMMAND [ARGS]...]\n\
     \n\
     The target is moved to a freshly allocated pty whose master is\n\
     proxied to this terminal; reptyr-rs stays in the foreground until\n\
     the target's session ends.\n\
     \n\
     OPTIONS:\n\
     \x20   -s   Also redirect fds 0, 1 and 2 unconditionally, even when they\n\
     \x20       are not connected to the target's controlling terminal\n\
     \x20   -T   TTY-stealing mode: take over the master end of the target's\n\
     \x20       pty instead of ptracing a single process (grabs every process\n\
     \x20       on that terminal; may need root)\n\
     \x20   -l   Create a new pty, print its slave path, and proxy it to this\n\
     \x20       terminal. With COMMAND, runs it with REPTYR_PTY set to the\n\
     \x20       slave path\n\
     \x20   -L   Like -l, but runs COMMAND with fds 0-2 on the new pty, in a\n\
     \x20       fresh session with the pty as its controlling terminal\n\
     \x20   -V   Verbose debug output\n\
     \x20   -v   Print version and exit\n\
     \x20   -h   Print this help and exit\n\
     \n\
     STREAMS: 'stdin', 'stdout', 'stderr' joined with '|' (default: all).\n\
     Only fds 0-2 are filtered; other fds on the target's controlling\n\
     terminal are always redirected.\n\
     \n\
     EXAMPLES:\n\
     \x20   reptyr-rs 1234\n\
     \x20   reptyr-rs -s 1234 stdout|stderr\n\
     \x20   reptyr-rs -T 1234\n\
     \x20   reptyr-rs -L tmux new-session\n";

/// The help text.
pub fn usage() -> (r: &'static str)
    ensures
        r@ == USAGE@,
{
    USAGE
}

/// Which of the target's standard streams to redirect. Only meaningful
/// for fds 0-2; fds above 2 found on the controlling terminal are always
/// redirected.
#[derive(Debug, Clone, Copy, PartialEq, Eq, Structural)]
pub struct Streams {
    pub stdin: bool,
    pub stdout: bool,
    pub stderr: bool,
}

impl Streams {
    /// Whether the file descriptor passes the selection.
    pub open spec fn selects(self, fd: i32) -> bool {
        &&& fd == 0 ==> self.stdin
        &&& fd == 1 ==> self.stdout
        &&& fd == 2 ==> self.stderr
    }

    /// Every standard stream.
    pub fn all() -> (r: Self)
        ensures
            forall|fd: i32| r.selects(fd),
            r.stdin && r.stdout && r.stderr,
    {
        Streams { stdin: true, stdout: true, stderr: true }
    }

    pub fn includes(&self, fd: i32) -> (r: bool)
        ensures
            r == self.selects(fd),
    {
        match fd {
            0 => self.stdin,
            1 => self.stdout,
            2 => self.stderr,
            _ => true,
        }
    }
}

#[derive(Debug)]
pub enum Mode {
    /// Default mode: ptrace the target and move it to the current terminal.
    Attach { pid: i32, streams: Streams, force_stdio: bool },
    /// -T: steal the master end of the target's pty.
    StealTty { pid: i32 },
    /// -l/-L: create a fresh pty and proxy it to the current terminal.
    Proxy { login: bool, command: Vec<String> },
}

pub enum ModeView {
    Attach { pid: i32, streams: Streams, force_stdio: bool },
    StealTty { pid: i32 },
    Proxy { login: bool, command: Seq<Seq<char>> },
}

impl View for Mode {
    type V = ModeView;

    open spec fn view(&self) -> ModeView {
        match self {
            Mode::Attach { pid, streams, force_stdio } => ModeView::Attach {
                pid: *pid,
                streams: *streams,
                force_stdio: *force_stdio,
            },
            Mode::StealTty { pid } => ModeView::StealTty { pid: *pid },
            Mode::Proxy { login, command } => ModeView::Proxy {
                login: *login,
                command: text::texts(command@),
            },
        }
    }
}

#[derive(Debug)]
pub struct Options {
    pub mode: Mode,
    pub verbose: bool,
}

pub struct OptionsView {
    pub mode: ModeView,
    pub verbose: bool,
}

impl View for Options {
    type V = OptionsView;

    open spec fn view(&self) -> OptionsView {
        OptionsView { mode: self.mode@, verbose: self.verbose }
    }
}

// ---------------------------------------------------------------------
// What the arguments mean
// ---------------------------------------------------------------------

/// What an argument is, as long as `--` has not been seen.
#[derive(Debug, Clone, Copy, PartialEq, Eq, Structural)]
pub enum ArgKind {
    EndOfFlags,
    Verbose,
    ForceStdio,
    StealTty,
    /// `-L` when `login`, else `-l`.
    Pty { login: bool },
    Unknown,
    Positional,
}

pub open spec fn arg_kind(a: Seq<char>) -> ArgKind {
    if a == "--"@ {
        ArgKind::EndOfFlags
    } else if a == "-V"@ || a == "--verbose"@ {
        ArgKind::Verbose
    } else if a == "-s"@ {
        ArgKind::ForceStdio
    } else if a == "-T"@ {
        ArgKind::StealTty
    } else if a == "-l"@ {
        ArgKind::Pty { login: false }
    } else if a == "-L"@ {
        ArgKind::Pty { login: true }
    } else if a.len() > 1 && a[0] == '-' {
        ArgKind::Unknown
    } else {
        ArgKind::Positional
    }
}

/// Position of the first `--` from `i` on, or the number of arguments.
pub open spec fn flags_end(args: Seq<Seq<char>>, i: int) -> int
    decreases args.len() - i,
{
    if i >= args.len() {
        args.len() as int
    } else if arg_kind(args[i]) == ArgKind::EndOfFlags {
        i
    } else {
        flags_end(args, i + 1)
    }
}

/// The arguments in front of the first `--`.
pub open spec fn before_dashes(args: Seq<Seq<char>>) -> Seq<Seq<char>> {
    args.take(flags_end(args, 0))
}

pub open spec fn has_kind(opts: Seq<Seq<char>>, kind: ArgKind) -> bool {
    exists|i: int| 0 <= i < opts.len() && arg_kind(#[trigger] opts[i]) == kind
}

/// The first argument that looks like an option and is none.
pub open spec fn first_unknown(opts: Seq<Seq<char>>) -> Option<Seq<char>>
    decreases opts.len(),
{
    if opts.len() == 0 {
        None
    } else {
        match first_unknown(opts.drop_last()) {
            Some(u) => Some(u),
            None => if arg_kind(opts.last()) == ArgKind::Unknown {
                Some(opts.last())
            } else {
                None
            },
        }
    }
}

/// The last of `-l` and `-L` decides; `Some(true)` for `-L`.
pub open spec fn pty_mode(opts: Seq<Seq<char>>) -> Option<bool>
    decreases opts.len(),
{
    if opts.len() == 0 {
        None
    } else {
        match arg_kind(opts.last()) {
            ArgKind::Pty { login } => Some(login),
            _ => pty_mode(opts.drop_last()),
        }
    }
}

/// The arguments that are no flags: those among the flags, in order, then
/// everything after the first `--`.
pub open spec fn positional(args: Seq<Seq<char>>) -> Seq<Seq<char>> {
    let end = flags_end(args, 0);
    let plain = before_dashes(args).filter(|a: Seq<char>| arg_kind(a) == ArgKind::Positional);
    if end < args.len() {
        plain + args.skip(end + 1)
    } else {
        plain
    }
}

pub open spec fn pid_meaning(arg: Option<Seq<char>>) -> Result<i32, ErrorView> {
    match arg {
        None => Err(ErrorView::Msg("missing PID (try -h)"@)),
        Some(s) => match text::signed_value(s, i64::MIN as int, i64::MAX as int) {
            Some(v) if 0 < v <= i32::MAX => Ok(v as i32),
            _ => Err(ErrorView::Msg("invalid pid: "@ + s)),
        },
    }
}

/// The stream that a token names, by its file descriptor.
pub open spec fn stream_named(token: Seq<char>) -> Option<int> {
    if token == "stdin"@ {
        Some(0)
    } else if token == "stdout"@ {
        Some(1)
    } else if token == "stderr"@ {
        Some(2)
    } else {
        None
    }
}

pub open spec fn names_stream(tokens: Seq<Seq<char>>, fd: int) -> bool {
    exists|i: int| 0 <= i < tokens.len() && stream_named(#[trigger] tokens[i]) == Some(fd)
}

/// The first token that names no stream.
pub open spec fn first_bad_stream(tokens: Seq<Seq<char>>) -> Option<Seq<char>>
    decreases tokens.len(),
{
    if tokens.len() == 0 {
        None
    } else {
        match first_bad_stream(tokens.drop_last()) {
            Some(t) => Some(t),
            None => if stream_named(tokens.last()) is None {
                Some(tokens.last())
            } else {
                None
            },
        }
    }
}

pub open spec fn streams_meaning(s: Seq<char>) -> Result<Streams, ErrorView> {
    let tokens = text::split_on(s, '|');
    match first_bad_stream(tokens) {
        Some(t) => Err(
            ErrorView::Msg("invalid stream '"@ + t + "': expected stdin|stdout|stderr"@),
        ),
        None => Ok(
            Streams {
                stdin: names_stream(tokens, 0),
                stdout: names_stream(tokens, 1),
                stderr: names_stream(tokens, 2),
            },
        ),
    }
}

pub open spec fn attach_meaning(
    positional: Seq<Seq<char>>,
    force_stdio: bool,
) -> Result<ModeView, ErrorView> {
    match pid_meaning(
        if positional.len() > 0 {
            Some(positional[0])
        } else {
            None
        },
    ) {
        Err(e) => Err(e),
        Ok(pid) => {
            let streams: Result<Streams, ErrorView> = if positional.len() > 1 {
                streams_meaning(positional[1])
            } else {
                Ok(Streams { stdin: true, stdout: true, stderr: true })
            };
            match streams {
                Err(e) => Err(e),
                Ok(streams) => if positional.len() > 2 {
                    Err(ErrorView::Msg("too many arguments (try -h)"@))
                } else {
                    Ok(ModeView::Attach { pid, streams, force_stdio })
                },
            }
        },
    }
}

/// The mode that the flags and the remaining arguments select.
pub open spec fn mode_meaning(
    pty: Option<bool>,
    steal_tty: bool,
    force_stdio: bool,
    positional: Seq<Seq<char>>,
) -> Result<ModeView, ErrorView> {
    match pty {
        Some(login) => if steal_tty || force_stdio {
            Err(ErrorView::Msg("-l/-L cannot be combined with -T or -s"@))
        } else {
            Ok(ModeView::Proxy { login, command: positional })
        },
        None => if steal_tty {
            if force_stdio {
                Err(ErrorView::Msg("-T cannot be combined with -s"@))
            } else {
                match pid_meaning(
                    if positional.len() > 0 {
                        Some(positional[0])
                    } else {
                        None
                    },
                ) {
                    Ok(pid) => Ok(ModeView::StealTty { pid }),
                    Err(e) => Err(e),
                }
            }
        } else {
            attach_meaning(positional, force_stdio)
        },
    }
}

/// What a whole command line means.
pub open spec fn meaning(args: Seq<Seq<char>>) -> Result<OptionsView, ErrorView> {
    let opts = before_dashes(args);
    match first_unknown(opts) {
        Some(u) => Err(ErrorView::Msg("unknown option: "@ + u + " (try -h)"@)),
        None => match mode_meaning(
            pty_mode(opts),
            has_kind(opts, ArgKind::StealTty),
            has_kind(opts, ArgKind::ForceStdio),
            positional(args),
        ) {
            Ok(mode) => Ok(OptionsView { mode, verbose: has_kind(opts, ArgKind::Verbose) }),
            Err(e) => Err(e),
        },
    }
}

/// A parsed command line, by its view.
pub open spec fn parsed(r: Result<Options, Error>) -> Result<OptionsView, ErrorView> {
    match r {
        Ok(options) => Ok(options@),
        Err(e) => Err(e@),
    }
}

fn kind_of(arg: &str) -> (r: ArgKind)
    ensures
        r == arg_kind(arg@),
{
    if same_text(arg, "--") {
        ArgKind::EndOfFlags
    } else if same_text(arg, "-V") || same_text(arg, "--verbose") {
        ArgKind::Verbose
    } else if same_text(arg, "-s") {
        ArgKind::ForceStdio
    } else if same_text(arg, "-T") {
        ArgKind::StealTty
    } else if same_text(arg, "-l") {
        ArgKind::Pty { login: false }
    } else if same_text(arg, "-L") {
        ArgKind::Pty { login: true }
    } else {
        let chars: Vec<char> = chars_of(arg);
        if chars.len() > 1 && chars[0] == '-' {
            ArgKind::Unknown
        } else {
            ArgKind::Positional
        }
    }
}

fn parse_pid(arg: Option<&String>) -> (r: Result<i32, Error>)
    ensures
        error::outcome(r) == pid_meaning(
            match arg {
                Some(s) => Some(s@),
                None => None,
            },
        ),
{
    match arg {
        None => Err(msg("missing PID (try -h)")),
        Some(s) => {
            if let Some(pid) = parse_i64(&chars_of(s.as_str())) {
                if 0 < pid && pid <= i32::MAX as i64 {
                    return Ok(pid as i32);
                }
            }
            let mut m: String = copy_text("invalid pid: ");
            m.append(s.as_str());
            Err(Error::Msg(m))
        },
    }
}

pub fn parse_streams(s: &str) -> (r: Result<Streams, Error>)
    ensures
        error::outcome(r) == streams_meaning(s@),
{
    let tokens: Vec<&str> = split(s, '|');
    let ghost all = text::split_on(s@, '|');
    let mut streams: Streams = Streams { stdin: false, stdout: false, stderr: false };
    let mut i: usize = 0;
    while i < tokens.len()
        invariant
            i <= tokens@.len(),
            text::slices(tokens@) == all,
            all == text::split_on(s@, '|'),
            first_bad_stream(all.take(i as int)) is None,
            streams.stdin == names_stream(all.take(i as int), 0),
            streams.stdout == names_stream(all.take(i as int), 1),
            streams.stderr == names_stream(all.take(i as int), 2),
        decreases tokens@.len() - i,
    {
        let token: &str = tokens[i];
        let ghost seen = all.take(i as int);
        let ghost grown = all.take(i + 1);
        proof {
            assert(all[i as int] == token@);
            assert(grown.drop_last() =~= seen);
            assert forall|fd: int| names_stream(grown, fd) == (names_stream(seen, fd)
                || stream_named(token@) == Some(fd)) by {
                if names_stream(seen, fd) {
                    let j = choose|j: int|
                        0 <= j < seen.len() && stream_named(#[trigger] seen[j]) == Some(fd);
                    assert(grown[j] == seen[j]);
                }
                if stream_named(token@) == Some(fd) {
                    assert(grown[i as int] == token@);
                }
                if names_stream(grown, fd) {
                    let j = choose|j: int|
                        0 <= j < grown.len() && stream_named(#[trigger] grown[j]) == Some(fd);
                    if j < i {
                        assert(seen[j] == grown[j]);
                    }
                }
            }
        }
        if same_text(token, "stdin") {
            streams.stdin = true;
        } else if same_text(token, "stdout") {
            streams.stdout = true;
        } else if same_text(token, "stderr") {
            streams.stderr = true;
        } else {
            let mut m: String = copy_text("invalid stream '");
            m.append(token);
            m.append("': expected stdin|stdout|stderr");
            proof {
                lemma_first_bad_stays(all, i + 1);
            }
            return Err(Error::Msg(m));
        }
        i = i + 1;
    }
    assert(all.take(i as int) =~= all);
    Ok(streams)
}

proof fn lemma_first_bad_stays(tokens: Seq<Seq<char>>, k: int)
    requires
        0 <= k <= tokens.len(),
        first_bad_stream(tokens.take(k)) is Some,
    ensures
        first_bad_stream(tokens) == first_bad_stream(tokens.take(k)),
    decreases tokens.len() - k,
{
    if k == tokens.len() {
        assert(tokens.take(k) =~= tokens);
    } else {
        assert(tokens.take(k + 1).drop_last() =~= tokens.take(k));
        lemma_first_bad_stays(tokens, k + 1);
    }
}

proof fn lemma_first_unknown_stays(opts: Seq<Seq<char>>, k: int)
    requires
        0 <= k <= opts.len(),
        first_unknown(opts.take(k)) is Some,
    ensures
        first_unknown(opts) == first_unknown(opts.take(k)),
    decreases opts.len() - k,
{
    if k == opts.len() {
        assert(opts.take(k) =~= opts);
    } else {
        assert(opts.take(k + 1).drop_last() =~= opts.take(k));
        lemma_first_unknown_stays(opts, k + 1);
    }
}

proof fn lemma_flags_end_bounds(args: Seq<Seq<char>>, i: int)
    requires
        0 <= i <= args.len(),
    ensures
        i <= flags_end(args, i) <= args.len(),
    decreases args.len() - i,
{
    if i < args.len() && arg_kind(args[i]) != ArgKind::EndOfFlags {
        lemma_flags_end_bounds(args, i + 1);
    }
}

proof fn lemma_has_kind_step(opts: Seq<Seq<char>>, a: Seq<char>, kind: ArgKind)
    ensures
        has_kind(opts.push(a), kind) == (has_kind(opts, kind) || arg_kind(a) == kind),
{
    let grown = opts.push(a);
    if has_kind(opts, kind) {
        let j = choose|j: int| 0 <= j < opts.len() && arg_kind(#[trigger] opts[j]) == kind;
        assert(grown[j] == opts[j]);
    }
    if arg_kind(a) == kind {
        assert(grown[opts.len() as int] == a);
    }
    if has_kind(grown, kind) {
        let j = choose|j: int| 0 <= j < grown.len() && arg_kind(#[trigger] grown[j]) == kind;
        if j < opts.len() {
            assert(opts[j] == grown[j]);
        }
    }
}

/// The flags and the remaining arguments of a command line.
struct Scanned {
    verbose: bool,
    force_stdio: bool,
    steal_tty: bool,
    pty: Option<bool>,
    positional: Vec<String>,
}

/// Sort the arguments into flags and the rest.
fn scan(args: &[String]) -> (r: Result<Scanned, Error>)
    ensures
        ({
            let all = text::texts(args@);
            let opts = before_dashes(all);
            match (r, first_unknown(opts)) {
                (Err(e), Some(u)) => e@ == ErrorView::Msg(
                    "unknown option: "@ + u + " (try -h)"@,
                ),
                (Ok(found), None) => {
                    &&& found.verbose == has_kind(opts, ArgKind::Verbose)
                    &&& found.force_stdio == has_kind(opts, ArgKind::ForceStdio)
                    &&& found.steal_tty == has_kind(opts, ArgKind::StealTty)
                    &&& found.pty == pty_mode(opts)
                    &&& text::texts(found.positional@) == positional(all)
                },
                _ => false,
            }
        }),
{
    let ghost all = text::texts(args@);
    let ghost end = flags_end(all, 0);
    let ghost opts = all.take(end);
    let ghost plain = |a: Seq<char>| arg_kind(a) == ArgKind::Positional;
    proof {
        lemma_flags_end_bounds(all, 0);
        assert(opts.take(0) =~= Seq::<Seq<char>>::empty());
        reveal(Seq::filter);
        assert(opts.take(0).filter(plain) =~= Seq::<Seq<char>>::empty());
    }
    let mut found: Scanned = Scanned {
        verbose: false,
        force_stdio: false,
        steal_tty: false,
        pty: None,
        positional: Vec::new(),
    };
    let mut no_more_flags: bool = false;
    let mut i: usize = 0;
    assert(text::texts(found.positional@) =~= opts.take(0).filter(plain));
    while i < args.len()
        invariant
            i <= args@.len(),
            all == text::texts(args@),
            end == flags_end(all, 0),
            0 <= end <= all.len(),
            opts == all.take(end),
            plain == (|a: Seq<char>| arg_kind(a) == ArgKind::Positional),
            !no_more_flags ==> i <= end && flags_end(all, i as int) == end,
            no_more_flags ==> end < i,
            ({
                let seen = if no_more_flags {
                    opts
                } else {
                    opts.take(i as int)
                };
                &&& first_unknown(seen) is None
                &&& found.verbose == has_kind(seen, ArgKind::Verbose)
                &&& found.force_stdio == has_kind(seen, ArgKind::ForceStdio)
                &&& found.steal_tty == has_kind(seen, ArgKind::StealTty)
                &&& found.pty == pty_mode(seen)
                &&& text::texts(found.positional@) == seen.filter(plain) + (if no_more_flags {
                    all.subrange(end + 1, i as int)
                } else {
                    Seq::<Seq<char>>::empty()
                })
            }),
        decreases args@.len() - i,
    {
        let arg: &String = &args[i];
        assert(all[i as int] == arg@);
        let ghost before = text::texts(found.positional@);
        if no_more_flags {
            found.positional.push(copy_text(arg.as_str()));
            assert(text::texts(found.positional@) =~= before.push(arg@));
            assert(all.subrange(end + 1, i + 1) =~= all.subrange(end + 1, i as int).push(arg@));
            assert(text::texts(found.positional@) =~= opts.filter(plain) + all.subrange(
                end + 1,
                i + 1,
            ));
        } else {
            let kind: ArgKind = kind_of(arg.as_str());
            let ghost seen = opts.take(i as int);
            proof {
                lemma_flags_end_bounds(all, i + 1);
                if kind == ArgKind::EndOfFlags {
                    assert(end == i);
                    assert(seen =~= opts);
                    assert(all.subrange(end + 1, i + 1) =~= Seq::<Seq<char>>::empty());
                } else {
                    assert(end >= i + 1);
                    assert(opts.take(i + 1) =~= seen.push(arg@));
                    assert(seen.push(arg@).drop_last() =~= seen);
                    lemma_has_kind_step(seen, arg@, ArgKind::Verbose);
                    lemma_has_kind_step(seen, arg@, ArgKind::ForceStdio);
                    lemma_has_kind_step(seen, arg@, ArgKind::StealTty);
                    reveal(Seq::filter);
                }
            }
            match kind {
                ArgKind::EndOfFlags => {
                    no_more_flags = true;
                },
                ArgKind::Verbose => {
                    found.verbose = true;
                },
                ArgKind::ForceStdio => {
                    found.force_stdio = true;
                },
                ArgKind::StealTty => {
                    found.steal_tty = true;
                },
                ArgKind::Pty { login } => {
                    found.pty = Some(login);
                },
                ArgKind::Unknown => {
                    let mut m: String = copy_text("unknown option: ");
                    m.append(arg.as_str());
                    m.append(" (try -h)");
                    proof {
                        lemma_first_unknown_stays(opts, i + 1);
                    }
                    return Err(Error::Msg(m));
                },
                ArgKind::Positional => {
                    found.positional.push(copy_text(arg.as_str()));
                    assert(text::texts(found.positional@) =~= before.push(arg@));
                },
            }
        }
        i = i + 1;
    }
    proof {
        if no_more_flags {
            assert(all.subrange(end + 1, i as int) =~= all.skip(end + 1));
        } else {
            assert(opts.take(i as int) =~= opts);
            assert(end == all.len());
        }
        assert(text::texts(found.positional@) =~= positional(all));
    }
    Ok(found)
}

pub fn parse(args: &[String]) -> (r: Result<Options, Error>)
    ensures
        parsed(r) == meaning(text::texts(args@)),
{
    let found: Scanned = match scan(args) {
        Ok(found) => found,
        Err(e) => {
            return Err(e);
        },
    };
    let ghost rest = text::texts(found.positional@);
    let verbose: bool = found.verbose;
    if let Some(login) = found.pty {
        if found.steal_tty || found.force_stdio {
            return Err(msg("-l/-L cannot be combined with -T or -s"));
        }
        return Ok(Options { mode: Mode::Proxy { login, command: found.positional }, verbose });
    }
    let first: Option<&String> = if found.positional.len() > 0 {
        assert(rest[0] == found.positional@[0]@);
        Some(&found.positional[0])
    } else {
        None
    };
    if found.steal_tty {
        if found.force_stdio {
            return Err(msg("-T cannot be combined with -s"));
        }
        return match parse_pid(first) {
            Ok(pid) => Ok(Options { mode: Mode::StealTty { pid }, verbose }),
            Err(e) => Err(e),
        };
    }
    let pid: i32 = match parse_pid(first) {
        Ok(pid) => pid,
        Err(e) => {
            return Err(e);
        },
    };
    let streams: Streams = if found.positional.len() > 1 {
        assert(rest[1] == found.positional@[1]@);
        match parse_streams(found.positional[1].as_str()) {
            Ok(streams) => streams,
            Err(e) => {
                return Err(e);
            },
        }
    } else {
        Streams::all()
    };
    if found.positional.len() > 2 {
        return Err(msg("too many arguments (try -h)"));
    }
    Ok(Options { mode: Mode::Attach { pid, streams, force_stdio: found.force_stdio }, verbose })
}

/// What the program does before it looks at anything but the first
/// argument.
#[derive(Debug, Clone, Copy, PartialEq, Eq, Structural)]
pub enum Front {
    Help,
    Version,
    Run,
}

pub open spec fn front_meaning(args: Seq<Seq<char>>) -> Front {
    if args.len() > 0 && (args[0] == "-h"@ || args[0] == "--help"@) {
        Front::Help
    } else if args.len() > 0 && (args[0] == "-v"@ || args[0] == "--version"@) {
        Front::Version
    } else {
        Front::Run
    }
}

/// Whether the first argument asks for the help text or the version.
pub fn front(args: &[String]) -> (r: Front)
    ensures
        r == front_meaning(text::texts(args@)),
{
    if args.len() > 0 {
        let first: &str = args[0].as_str();
        if same_text(first, "-h") || same_text(first, "--help") {
            return Front::Help;
        }
        if same_text(first, "-v") || same_text(first, "--version") {
            return Front::Version;
        }
    }
    Front::Run
}

// ---------------------------------------------------------------------
// Laws
// ---------------------------------------------------------------------

/// A stream selection that is accepted selects at least one stream.
pub proof fn accepted_streams_are_not_empty(s: Seq<char>)
    ensures
        streams_meaning(s) matches Ok(streams) ==> streams.stdin || streams.stdout
            || streams.stderr,
{
    let tokens = text::split_on(s, '|');
    if first_bad_stream(tokens) is None {
        text::split_on_is_not_empty(s, '|');
        assert(tokens.drop_last() =~= tokens.take(tokens.len() - 1));
        assert(stream_named(tokens[tokens.len() - 1]) is Some);
    }
}

/// A stream selection constrains file descriptors 0 to 2 only.
pub proof fn streams_filter_standard_fds_only(streams: Streams, fd: i32)
    requires
        fd < 0 || fd > 2,
    ensures
        streams.selects(fd),
{
}

/// The decimal form of a process id, alone on the command line, asks to
/// attach that process with every stream and nothing forced.
pub proof fn plain_pid_attaches(pid: i32)
    requires
        pid > 0,
    ensures
        meaning(seq![text::decimal(pid as nat)]) == Ok::<OptionsView, ErrorView>(
            OptionsView {
                mode: ModeView::Attach {
                    pid,
                    streams: Streams { stdin: true, stdout: true, stderr: true },
                    force_stdio: false,
                },
                verbose: false,
            },
        ),
{
    let word = text::decimal(pid as nat);
    let args = seq![word];
    lemma_decimal_is_positional(pid as nat);
    reveal_with_fuel(flags_end, 3);
    assert(flags_end(args, 0) == 1);
    let opts = before_dashes(args);
    assert(opts =~= args);
    assert(opts.drop_last() =~= Seq::<Seq<char>>::empty());
    reveal_with_fuel(first_unknown, 2);
    reveal_with_fuel(pty_mode, 2);
    reveal(Seq::filter);
    let plain = |a: Seq<char>| arg_kind(a) == ArgKind::Positional;
    assert(opts.drop_last().filter(plain) =~= Seq::<Seq<char>>::empty());
    assert(opts.filter(plain) =~= seq![word]);
    assert(positional(args) =~= seq![word]);
    text::decimal_reads_back(pid as nat);
    assert(text::signed_value(word, i64::MIN as int, i64::MAX as int) == Some(pid as int));
}

proof fn lemma_decimal_is_positional(n: nat)
    ensures
        arg_kind(text::decimal(n)) == ArgKind::Positional,
{
    text::decimal_starts_with_digit(n);
    reveal_strlit("--");
    reveal_strlit("-V");
    reveal_strlit("--verbose");
    reveal_strlit("-s");
    reveal_strlit("-T");
    reveal_strlit("-l");
    reveal_strlit("-L");
}

/// `--` ends the options: whatever follows it is taken literally.
pub proof fn dashes_end_the_options(before: Seq<Seq<char>>, after: Seq<Seq<char>>)
    requires
        forall|i: int| 0 <= i < before.len() ==> arg_kind(#[trigger] before[i])
            != ArgKind::EndOfFlags,
    ensures
        before_dashes(before + seq!["--"@] + after) == before,
        positional(before + seq!["--"@] + after) == before.filter(
            |a: Seq<char>| arg_kind(a) == ArgKind::Positional,
        ) + after,
{
    let args = before + seq!["--"@] + after;
    lemma_flags_end_at(args, 0, before.len() as int);
    assert(args.take(before.len() as int) =~= before);
    assert(args.skip(before.len() as int + 1) =~= after);
}

proof fn lemma_flags_end_at(args: Seq<Seq<char>>, i: int, k: int)
    requires
        0 <= i <= k < args.len(),
        arg_kind(args[k]) == ArgKind::EndOfFlags,
        forall|j: int| i <= j < k ==> arg_kind(#[trigger] args[j]) != ArgKind::EndOfFlags,
    ensures
        flags_end(args, i) == k,
    decreases k - i,
{
    if i < k {
        lemma_flags_end_at(args, i + 1, k);
    }
}

/// One of the three words that name a stream.
pub open spec fn is_stream_word(w: Seq<char>) -> bool {
    w == "stdin"@ || w == "stdout"@ || w == "stderr"@
}

proof fn lemma_stream_words()
    ensures
        "stdin"@ != "stdout"@,
        "stdin"@ != "stderr"@,
        "stdout"@ != "stderr"@,
        !"stdin"@.contains('|'),
        !"stdout"@.contains('|'),
        !"stderr"@.contains('|'),
{
    reveal_strlit("stdin");
    reveal_strlit("stdout");
    reveal_strlit("stderr");
    assert("stdin"@[3] == 'i');
    assert("stdout"@[3] == 'o');
    assert("stderr"@[3] == 'e');
}

proof fn lemma_first_bad_none(tokens: Seq<Seq<char>>)
    ensures
        first_bad_stream(tokens) is None <==> forall|i: int|
            0 <= i < tokens.len() ==> is_stream_word(#[trigger] tokens[i]),
    decreases tokens.len(),
{
    if tokens.len() > 0 {
        let front = tokens.drop_last();
        lemma_first_bad_none(front);
        assert(forall|i: int| 0 <= i < front.len() ==> front[i] == tokens[i]);
        assert(tokens[tokens.len() - 1] == tokens.last());
    }
}

proof fn lemma_names_stream(tokens: Seq<Seq<char>>)
    ensures
        names_stream(tokens, 0) <==> tokens.contains("stdin"@),
        names_stream(tokens, 1) <==> tokens.contains("stdout"@),
        names_stream(tokens, 2) <==> tokens.contains("stderr"@),
{
    lemma_stream_words();
    if tokens.contains("stdin"@) {
        let i = choose|i: int| 0 <= i < tokens.len() && tokens[i] == "stdin"@;
        assert(stream_named(tokens[i]) == Some(0int));
    }
    if tokens.contains("stdout"@) {
        let i = choose|i: int| 0 <= i < tokens.len() && tokens[i] == "stdout"@;
        assert(stream_named(tokens[i]) == Some(1int));
    }
    if tokens.contains("stderr"@) {
        let i = choose|i: int| 0 <= i < tokens.len() && tokens[i] == "stderr"@;
        assert(stream_named(tokens[i]) == Some(2int));
    }
}

/// A selection is accepted exactly when every part between the `|` is the
/// word for a stream, and it then selects exactly the streams that are
/// named: fd 0 when a part is `stdin`, fd 1 when one is `stdout`, fd 2 when
/// one is `stderr`, and none of them otherwise.
pub proof fn exactly_the_named_streams_are_selected(s: Seq<char>)
    ensures
        ({
            let parts = text::split_on(s, '|');
            &&& streams_meaning(s) is Ok <==> forall|i: int|
                0 <= i < parts.len() ==> is_stream_word(#[trigger] parts[i])
            &&& streams_meaning(s) matches Ok(streams) ==> {
                &&& streams.stdin <==> parts.contains("stdin"@)
                &&& streams.stdout <==> parts.contains("stdout"@)
                &&& streams.stderr <==> parts.contains("stderr"@)
                &&& streams.selects(0) <==> parts.contains("stdin"@)
                &&& streams.selects(1) <==> parts.contains("stdout"@)
                &&& streams.selects(2) <==> parts.contains("stderr"@)
            }
        }),
{
    let parts = text::split_on(s, '|');
    lemma_first_bad_none(parts);
    lemma_names_stream(parts);
}

/// Words for streams, joined with `|` in any order and number, select
/// exactly the streams that they name.
pub proof fn joined_words_select_their_streams(words: Seq<Seq<char>>)
    requires
        words.len() > 0,
        forall|i: int| 0 <= i < words.len() ==> is_stream_word(#[trigger] words[i]),
    ensures
        streams_meaning(text::joined(words, '|')) == Ok::<Streams, ErrorView>(
            Streams {
                stdin: words.contains("stdin"@),
                stdout: words.contains("stdout"@),
                stderr: words.contains("stderr"@),
            },
        ),
{
    lemma_stream_words();
    assert forall|i: int| 0 <= i < words.len() implies !(#[trigger] words[i]).contains('|') by {
        assert(is_stream_word(words[i]));
    }
    text::splitting_undoes_joining(words, '|');
    exactly_the_named_streams_are_selected(text::joined(words, '|'));
}

/// One word alone selects its stream and neither of the others.
pub proof fn a_single_word_selects_a_single_stream(word: Seq<char>, fd: i32)
    requires
        is_stream_word(word),
        0 <= fd <= 2,
    ensures
        streams_meaning(word) matches Ok(streams) && (streams.selects(fd) <==> {
            ||| fd == 0 && word == "stdin"@
            ||| fd == 1 && word == "stdout"@
            ||| fd == 2 && word == "stderr"@
        }),
{
    lemma_stream_words();
    let words = seq![word];
    assert(text::joined(words, '|') == word);
    joined_words_select_their_streams(words);
    assert(words[0] == word);
}

/// The first part that names no stream is the one that is reported, be it
/// empty.
pub proof fn first_wrong_part_is_reported(
    words: Seq<Seq<char>>,
    wrong: Seq<char>,
    rest: Seq<Seq<char>>,
)
    requires
        forall|i: int| 0 <= i < words.len() ==> is_stream_word(#[trigger] words[i]),
        !is_stream_word(wrong),
        !wrong.contains('|'),
        forall|i: int| 0 <= i < rest.len() ==> !(#[trigger] rest[i]).contains('|'),
    ensures
        streams_meaning(text::joined(words + seq![wrong] + rest, '|')) == Err::<Streams, ErrorView>(
            ErrorView::Msg("invalid stream '"@ + wrong + "': expected stdin|stdout|stderr"@),
        ),
{
    let parts = words + seq![wrong] + rest;
    lemma_stream_words();
    assert forall|i: int| 0 <= i < parts.len() implies !(#[trigger] parts[i]).contains('|') by {
        if i < words.len() {
            assert(parts[i] == words[i]);
        } else if i == words.len() {
            assert(parts[i] == wrong);
        } else {
            assert(parts[i] == rest[i - words.len() - 1]);
        }
    }
    text::splitting_undoes_joining(parts, '|');
    lemma_first_bad_none(words);
    let upto = parts.take(words.len() as int + 1);
    assert(upto.drop_last() =~= words);
    assert(upto.last() == wrong);
    lemma_first_bad_stays(parts, words.len() as int + 1);
}

/// A process id is a number from 1 to 2147483647, in decimal; everything
/// else is refused by name, and nothing at all as missing.
pub proof fn process_ids_are_positive_numbers(s: Seq<char>, n: nat)
    ensures
        pid_meaning(None) == Err::<i32, ErrorView>(ErrorView::Msg("missing PID (try -h)"@)),
        0 < n <= 2147483647 ==> pid_meaning(Some(text::decimal(n))) == Ok::<i32, ErrorView>(
            n as i32,
        ),
        n == 0 || n > 2147483647 ==> pid_meaning(Some(text::decimal(n))) == Err::<i32, ErrorView>(
            ErrorView::Msg("invalid pid: "@ + text::decimal(n)),
        ),
        match pid_meaning(Some(s)) {
            Ok(pid) => pid > 0 && text::signed_value(s, 1, 2147483647) == Some(pid as int),
            Err(e) => {
                &&& e == ErrorView::Msg("invalid pid: "@ + s)
                &&& text::signed_value(s, 1, 2147483647) matches Some(v) ==> v <= 0
            },
        },
{
    text::lemma_decimal_is_number(n);
    text::decimal_reads_back(n);
    if n <= i64::MAX {
        assert(text::signed_value(text::decimal(n), i64::MIN as int, i64::MAX as int) == Some(
            n as int,
        ));
    }
}

/// A word that is no option: it does not begin with `-`, or is `-` alone.
pub open spec fn is_plain(w: Seq<char>) -> bool {
    w.len() <= 1 || w[0] != '-'
}

/// A word that is an option, other than `--`.
pub open spec fn is_option(w: Seq<char>) -> bool {
    w == "-V"@ || w == "--verbose"@ || w == "-s"@ || w == "-T"@ || w == "-l"@ || w == "-L"@
}

proof fn lemma_kinds(w: Seq<char>)
    ensures
        arg_kind(w) == ArgKind::EndOfFlags <==> w == "--"@,
        arg_kind(w) == ArgKind::Verbose <==> w == "-V"@ || w == "--verbose"@,
        arg_kind(w) == ArgKind::ForceStdio <==> w == "-s"@,
        arg_kind(w) == ArgKind::StealTty <==> w == "-T"@,
        arg_kind(w) == (ArgKind::Pty { login: false }) <==> w == "-l"@,
        arg_kind(w) == (ArgKind::Pty { login: true }) <==> w == "-L"@,
        arg_kind(w) == ArgKind::Positional <==> is_plain(w),
        arg_kind(w) == ArgKind::Unknown <==> !is_plain(w) && !is_option(w) && w != "--"@,
{
    reveal_strlit("--");
    reveal_strlit("-V");
    reveal_strlit("--verbose");
    reveal_strlit("-s");
    reveal_strlit("-T");
    reveal_strlit("-l");
    reveal_strlit("-L");
    assert("--"@[1] == '-' && "-V"@[1] == 'V' && "-s"@[1] == 's' && "-T"@[1] == 'T' && "-l"@[1]
        == 'l' && "-L"@[1] == 'L');
    assert("--verbose"@.len() == 9);
}

proof fn lemma_no_unknown(opts: Seq<Seq<char>>)
    requires
        forall|i: int|
            0 <= i < opts.len() ==> arg_kind(#[trigger] opts[i]) != ArgKind::Unknown,
    ensures
        first_unknown(opts) is None,
    decreases opts.len(),
{
    if opts.len() > 0 {
        let front = opts.drop_last();
        assert(forall|i: int| 0 <= i < front.len() ==> front[i] == opts[i]);
        lemma_no_unknown(front);
        assert(opts[opts.len() - 1] == opts.last());
    }
}

proof fn lemma_no_dashes(args: Seq<Seq<char>>, i: int)
    requires
        0 <= i <= args.len(),
        forall|j: int| i <= j < args.len() ==> arg_kind(#[trigger] args[j])
            != ArgKind::EndOfFlags,
    ensures
        flags_end(args, i) == args.len(),
    decreases args.len() - i,
{
    if i < args.len() {
        lemma_no_dashes(args, i + 1);
    }
}

proof fn lemma_pty_mode(opts: Seq<Seq<char>>)
    ensures
        match pty_mode(opts) {
            None => !opts.contains("-l"@) && !opts.contains("-L"@),
            Some(login) => exists|i: int|
                0 <= i < opts.len() && last_choice(opts, i) && login == (#[trigger] opts[i]
                    == "-L"@),
        },
    decreases opts.len(),
{
    if opts.len() > 0 {
        let front = opts.drop_last();
        let last = opts.last();
        lemma_pty_mode(front);
        lemma_kinds(last);
        lemma_kinds("-l"@);
        lemma_kinds("-L"@);
        assert(opts[opts.len() - 1] == last);
        assert(forall|i: int| 0 <= i < front.len() ==> front[i] == opts[i]);
        if last == "-l"@ || last == "-L"@ {
            assert(last_choice(opts, opts.len() - 1));
        } else {
            match pty_mode(front) {
                None => {
                    if opts.contains("-l"@) {
                        let i = choose|i: int| 0 <= i < opts.len() && opts[i] == "-l"@;
                        assert(front[i] == "-l"@);
                    }
                    if opts.contains("-L"@) {
                        let i = choose|i: int| 0 <= i < opts.len() && opts[i] == "-L"@;
                        assert(front[i] == "-L"@);
                    }
                },
                Some(login) => {
                    let i = choose|i: int|
                        0 <= i < front.len() && last_choice(front, i) && login == (
                        #[trigger] front[i] == "-L"@);
                    assert(last_choice(opts, i)) by {
                        assert forall|j: int| i < j < opts.len() implies #[trigger] opts[j]
                            != "-l"@ && opts[j] != "-L"@ by {
                            if j < front.len() {
                                assert(front[j] == opts[j]);
                            }
                        }
                    }
                    assert(opts[i] == front[i]);
                },
            }
        }
    }
}

/// The last of the words `-l` and `-L` is at `i`.
pub open spec fn last_choice(opts: Seq<Seq<char>>, i: int) -> bool {
    &&& opts[i] == "-l"@ || opts[i] == "-L"@
    &&& forall|j: int| i < j < opts.len() ==> #[trigger] opts[j] != "-l"@ && opts[j] != "-L"@
}

proof fn lemma_has_kind(opts: Seq<Seq<char>>)
    ensures
        has_kind(opts, ArgKind::Verbose) <==> opts.contains("-V"@) || opts.contains("--verbose"@),
        has_kind(opts, ArgKind::ForceStdio) <==> opts.contains("-s"@),
        has_kind(opts, ArgKind::StealTty) <==> opts.contains("-T"@),
{
    assert forall|i: int| 0 <= i < opts.len() implies {
        &&& arg_kind(#[trigger] opts[i]) == ArgKind::Verbose <==> opts[i] == "-V"@ || opts[i]
            == "--verbose"@
        &&& arg_kind(opts[i]) == ArgKind::ForceStdio <==> opts[i] == "-s"@
        &&& arg_kind(opts[i]) == ArgKind::StealTty <==> opts[i] == "-T"@
    } by {
        lemma_kinds(opts[i]);
    }
    if opts.contains("-V"@) {
        let i = choose|i: int| 0 <= i < opts.len() && opts[i] == "-V"@;
        assert(arg_kind(opts[i]) == ArgKind::Verbose);
    }
    if opts.contains("--verbose"@) {
        let i = choose|i: int| 0 <= i < opts.len() && opts[i] == "--verbose"@;
        assert(arg_kind(opts[i]) == ArgKind::Verbose);
    }
    if opts.contains("-s"@) {
        let i = choose|i: int| 0 <= i < opts.len() && opts[i] == "-s"@;
        assert(arg_kind(opts[i]) == ArgKind::ForceStdio);
    }
    if opts.contains("-T"@) {
        let i = choose|i: int| 0 <= i < opts.len() && opts[i] == "-T"@;
        assert(arg_kind(opts[i]) == ArgKind::StealTty);
    }
}

/// A command line: words and options in any order, and after a `--` words
/// that are taken as they stand.
pub open spec fn line(front: Seq<Seq<char>>, literal: Option<Seq<Seq<char>>>) -> Seq<Seq<char>> {
    match literal {
        None => front,
        Some(rest) => front + seq!["--"@] + rest,
    }
}

/// The words of a command line that are no options, in order.
pub open spec fn words_of(
    front: Seq<Seq<char>>,
    literal: Option<Seq<Seq<char>>>,
) -> Seq<Seq<char>> {
    front.filter(|w: Seq<char>| is_plain(w)) + match literal {
        None => Seq::empty(),
        Some(rest) => rest,
    }
}

proof fn lemma_line(front: Seq<Seq<char>>, literal: Option<Seq<Seq<char>>>)
    requires
        !front.contains("--"@),
    ensures
        before_dashes(line(front, literal)) == front,
        positional(line(front, literal)) == words_of(front, literal),
{
    let args = line(front, literal);
    let by_kind = |a: Seq<char>| arg_kind(a) == ArgKind::Positional;
    let by_look = |w: Seq<char>| is_plain(w);
    assert(by_kind =~= by_look) by {
        assert forall|w: Seq<char>| #[trigger] by_kind(w) == by_look(w) by {
            lemma_kinds(w);
        }
    }
    assert forall|i: int| 0 <= i < front.len() implies arg_kind(#[trigger] front[i])
        != ArgKind::EndOfFlags by {
        lemma_kinds(front[i]);
    }
    match literal {
        None => {
            lemma_no_dashes(args, 0);
            assert(args.take(args.len() as int) =~= args);
            assert(positional(args) =~= words_of(front, literal));
        },
        Some(rest) => {
            dashes_end_the_options(front, rest);
        },
    }
}

/// What a command line of known options and other words means. `-l` and
/// `-L` make a new pty for the command that the words are, the last of the
/// two deciding which; `-T` takes over the terminal of the process that the
/// first word names; without these the first word is the process to attach,
/// the second, where there is one, its streams, and a third is too many;
/// `-s` forces the standard streams of the latter and goes with nothing
/// else; `-V` is heard anywhere. Where the words stand among the options
/// makes no difference.
pub proof fn options_and_words_decide(front: Seq<Seq<char>>, literal: Option<Seq<Seq<char>>>)
    requires
        forall|i: int|
            0 <= i < front.len() ==> is_plain(#[trigger] front[i]) || is_option(front[i]),
    ensures
        ({
            let words = words_of(front, literal);
            let verbose = front.contains("-V"@) || front.contains("--verbose"@);
            let result = meaning(line(front, literal));
            if front.contains("-l"@) || front.contains("-L"@) {
                if front.contains("-T"@) || front.contains("-s"@) {
                    result == Err::<OptionsView, ErrorView>(
                        ErrorView::Msg("-l/-L cannot be combined with -T or -s"@),
                    )
                } else {
                    exists|i: int|
                        0 <= i < front.len() && last_choice(front, i) && result == Ok::<
                            OptionsView,
                            ErrorView,
                        >(
                            OptionsView {
                                mode: ModeView::Proxy {
                                    login: #[trigger] front[i] == "-L"@,
                                    command: words,
                                },
                                verbose,
                            },
                        )
                }
            } else if front.contains("-T"@) && front.contains("-s"@) {
                result == Err::<OptionsView, ErrorView>(
                    ErrorView::Msg("-T cannot be combined with -s"@),
                )
            } else if words.len() == 0 {
                result == Err::<OptionsView, ErrorView>(ErrorView::Msg("missing PID (try -h)"@))
            } else {
                match pid_meaning(Some(words[0])) {
                    Err(e) => result == Err::<OptionsView, ErrorView>(e),
                    Ok(pid) => if front.contains("-T"@) {
                        result == Ok::<OptionsView, ErrorView>(
                            OptionsView { mode: ModeView::StealTty { pid }, verbose },
                        )
                    } else if words.len() == 1 {
                        result == Ok::<OptionsView, ErrorView>(
                            OptionsView {
                                mode: ModeView::Attach {
                                    pid,
                                    streams: Streams { stdin: true, stdout: true, stderr: true },
                                    force_stdio: front.contains("-s"@),
                                },
                                verbose,
                            },
                        )
                    } else {
                        match streams_meaning(words[1]) {
                            Err(e) => result == Err::<OptionsView, ErrorView>(e),
                            Ok(streams) => if words.len() == 2 {
                                result == Ok::<OptionsView, ErrorView>(
                                    OptionsView {
                                        mode: ModeView::Attach {
                                            pid,
                                            streams,
                                            force_stdio: front.contains("-s"@),
                                        },
                                        verbose,
                                    },
                                )
                            } else {
                                result == Err::<OptionsView, ErrorView>(
                                    ErrorView::Msg("too many arguments (try -h)"@),
                                )
                            },
                        }
                    },
                }
            }
        }),
{
    assert(!front.contains("--"@)) by {
        if front.contains("--"@) {
            let i = choose|i: int| 0 <= i < front.len() && front[i] == "--"@;
            lemma_kinds("--"@);
            lemma_kinds("-V"@);
            lemma_kinds("-s"@);
            lemma_kinds("-T"@);
            lemma_kinds("-l"@);
            lemma_kinds("-L"@);
            lemma_kinds("--verbose"@);
            assert(is_plain(front[i]) || is_option(front[i]));
        }
    }
    lemma_line(front, literal);
    assert forall|i: int| 0 <= i < front.len() implies arg_kind(#[trigger] front[i])
        != ArgKind::Unknown by {
        lemma_kinds(front[i]);
    }
    lemma_no_unknown(front);
    lemma_has_kind(front);
    lemma_pty_mode(front);
}

/// A word that looks like an option and is none is refused by name, and the
/// first such word is, whatever else stands on the command line.
pub proof fn first_unknown_option_is_reported(
    front: Seq<Seq<char>>,
    wrong: Seq<char>,
    rest: Seq<Seq<char>>,
)
    requires
        forall|i: int|
            0 <= i < front.len() ==> is_plain(#[trigger] front[i]) || is_option(front[i]),
        !is_plain(wrong) && !is_option(wrong) && wrong != "--"@,
    ensures
        meaning(front + seq![wrong] + rest) == Err::<OptionsView, ErrorView>(
            ErrorView::Msg("unknown option: "@ + wrong + " (try -h)"@),
        ),
{
    let args = front + seq![wrong] + rest;
    let k = front.len() as int;
    lemma_kinds(wrong);
    assert forall|i: int| 0 <= i <= k implies arg_kind(#[trigger] args[i])
        != ArgKind::EndOfFlags by {
        lemma_kinds(args[i]);
        if i < k {
            assert(args[i] == front[i]);
            lemma_kinds("-V"@);
            lemma_kinds("-s"@);
            lemma_kinds("-T"@);
            lemma_kinds("-l"@);
            lemma_kinds("-L"@);
            lemma_kinds("--verbose"@);
            lemma_kinds("--"@);
        }
    }
    lemma_flags_end_beyond(args, 0, k + 1);
    lemma_flags_end_bounds(args, 0);
    let opts = before_dashes(args);
    assert forall|i: int| 0 <= i < front.len() implies arg_kind(#[trigger] front[i])
        != ArgKind::Unknown by {
        lemma_kinds(front[i]);
    }
    lemma_no_unknown(front);
    let upto = opts.take(k + 1);
    assert(upto.drop_last() =~= front);
    assert(upto.last() == wrong);
    lemma_first_unknown_stays(opts, k + 1);
}

proof fn lemma_flags_end_beyond(args: Seq<Seq<char>>, i: int, k: int)
    requires
        0 <= i <= k <= args.len(),
        forall|j: int| i <= j < k ==> arg_kind(#[trigger] args[j]) != ArgKind::EndOfFlags,
    ensures
        flags_end(args, i) >= k,
    decreases k - i,
{
    if i < k {
        lemma_flags_end_beyond(args, i + 1, k);
    } else {
        lemma_flags_end_bounds(args, i);
    }
}

/// Only the first argument can ask for the help text or the version.
pub proof fn first_argument_asks_for_help(first: Seq<char>, rest: Seq<Seq<char>>)
    ensures
        front_meaning(Seq::empty()) == Front::Run,
        front_meaning(seq![first] + rest) == Front::Help <==> first == "-h"@ || first == "--help"@,
        front_meaning(seq![first] + rest) == Front::Version <==> first == "-v"@ || first
            == "--version"@,
{
    reveal_strlit("-h");
    reveal_strlit("--help");
    reveal_strlit("-v");
    reveal_strlit("--version");
    assert("-h"@[1] == 'h' && "--help"@[1] == '-' && "-v"@[1] == 'v');
    assert("--help"@.len() == 6 && "--version"@.len() == 9);
}

} // verus!
