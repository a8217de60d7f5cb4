//! What a session tells the user, and how it is put into words.

use crate::breakpoints::TRAP;
use crate::symbols::Frame;
use crate::text::{decimal, hex, push_decimal, push_digits, push_hex};
use crate::trace::TraceError;
use nix::sys::signal::Signal;
use vstd::prelude::*;

verus! {

/// What the caller is to do after a command.
#[derive(Clone, Copy, PartialEq, Eq, Debug, Structural)]
pub enum Next {
    /// Ask for the next command.
    Prompt,
    /// Leave: the user asked to.
    Exit,
    /// Give up: the traced process was lost while it ran.
    Abort,
}

/// Something to tell the user.
#[derive(Clone, PartialEq, Eq, Debug)]
pub enum Report {
    /// The traced process was killed.
    Killed { pid: i32 },
    /// The traced process could not be killed.
    KillFailed,
    /// The program could not be started under trace.
    StartFailed,
    /// There is no process to act on.
    NoProcess,
    /// The process exited.
    Exited { code: i32 },
    /// A signal killed the process.
    Signaled { signal: i32 },
    /// A signal stopped the process at `rip`, which is in `frame` if the
    /// symbol table knows the place.
    Stopped { signal: i32, rip: u64, frame: Option<Frame> },
    /// The process was lost: it could not be let run or waited for.
    Lost { error: TraceError },
    /// One frame of the call stack.
    Frame(Frame),
    /// The call stack could not be read.
    BacktraceFailed,
    /// What follows `*` is no address.
    BadAddress,
    /// The source file has no code at or after that line.
    NoSuchLine,
    /// The source file has no function of that name.
    NoSuchFunction,
    /// A breakpoint was set; `index` counts the breakpoints from 0.
    BreakpointSet { index: usize, addr: u64 },
    /// The address has a breakpoint already.
    AlreadySet { addr: u64 },
    /// The trap of a new breakpoint could not be written at `addr`.
    InstallFailed { addr: u64 },
    /// At the start of a process, the trap of the breakpoint at `addr` could
    /// not be written.
    WriteFailed { addr: u64 },
}

/// The answer to a command.
pub struct Outcome {
    pub reports: Vec<Report>,
    pub next: Next,
}

/// The name that `nix` has for the signal with this number, such as `SIGTRAP`
/// for 5 on Linux, and `None` for a number that is no signal's.
pub uninterp spec fn signal_name(signal: i32) -> Option<Seq<char>>;

/// `Signal::try_from` and `Signal::as_str` of `nix`: the number is turned into
/// a signal, which fails for a number that is no signal's, and the signal into
/// its name.  The name depends on the number alone.
#[verifier::external_body]
fn name_signal(signal: i32) -> (name: Option<String>)
    ensures
        name_view(name) == signal_name(signal),
{
    match Signal::try_from(signal) {
        Ok(known) => Some(known.as_str().to_owned()),
        Err(_) => None,
    }
}

/// The characters of a name, if there is one.
pub open spec fn name_view(name: Option<String>) -> Option<Seq<char>> {
    match name {
        Some(text) => Some(text@),
        None => None,
    }
}

/// How a signal is shown: by its name, or by its number if it has no name.
pub open spec fn signal_text(signal: i32, name: Option<Seq<char>>) -> Seq<char> {
    match name {
        Some(text) => text,
        None => decimal(signal as int),
    }
}

/// How a place in the program is shown: the function, and in brackets the
/// file and the line.
pub open spec fn frame_text(frame: Frame) -> Seq<char> {
    frame.function@ + " ("@ + frame.file@ + ":"@ + decimal(frame.line as int) + ")"@
}

/// The signal that a report speaks of, if it speaks of one.
pub open spec fn signal_of(report: Report) -> Option<i32> {
    match report {
        Report::Signaled { signal } => Some(signal),
        Report::Stopped { signal, .. } => Some(signal),
        _ => None,
    }
}

/// The text of a report, with `name` for the name of its signal.  A stop at a
/// known place takes two lines, every other report one.
pub open spec fn message_of(report: Report, name: Option<Seq<char>>) -> Seq<char> {
    match report {
        Report::Killed { pid } => "killed inferior (pid: "@ + decimal(pid as int) + ")"@,
        Report::KillFailed => "failed to kill child"@,
        Report::StartFailed => "Error starting subprocess"@,
        Report::NoProcess => "no child start"@,
        Report::Exited { code } => "child exited (status "@ + decimal(code as int) + ")"@,
        Report::Signaled { signal } => "child signaled (sigcode: "@ + signal_text(signal, name)
            + ")"@,
        Report::Stopped { signal, rip, frame } => match frame {
            Some(place) => "child stopped (signal: "@ + signal_text(signal, name) + ")\n"@
                + frame_text(place),
            None => "child stopped (signal: "@ + signal_text(signal, name) + ")"@,
        },
        Report::Lost { error } => "Error wakeup subprocess"@,
        Report::Frame(place) => frame_text(place),
        Report::BacktraceFailed => "failed to backtrace"@,
        Report::BadAddress => "parse addr error"@,
        Report::NoSuchLine => "get addr for line error"@,
        Report::NoSuchFunction => "get addr for function"@,
        Report::BreakpointSet { index, addr } => "set breakpoint "@ + decimal(index as int)
            + " at "@ + hex(addr as nat),
        Report::AlreadySet { addr } => hex(addr as nat) + " has already been set"@,
        Report::InstallFailed { addr } => "set breakpoint at: "@ + hex(addr as nat) + " error"@,
        Report::WriteFailed { addr } => "write byte: "@ + hex(TRAP as nat) + " error"@,
    }
}

/// Appends to `out` how `signal` is shown, given the name that was found for
/// it.
pub fn push_signal(out: &mut String, signal: i32, name: &Option<String>)
    ensures
        final(out)@ == old(out)@ + signal_text(signal, name_view(*name)),
{
    match name {
        Some(text) => {
            out.append(text.as_str());
        },
        None => {
            push_decimal(out, signal as i64);
        },
    }
}

/// Appends to `out` how `frame` is shown.
pub fn push_frame(out: &mut String, frame: &Frame)
    ensures
        final(out)@ == old(out)@ + frame_text(*frame),
{
    out.append(frame.function.as_str());
    out.append(" (");
    out.append(frame.file.as_str());
    out.append(":");
    push_digits(out, frame.line as u64, 10);
    out.append(")");
    assert(out@ =~= old(out)@ + frame_text(*frame));
}

impl Report {
    /// The text of the report, given the name that was found for its signal.
    pub fn message_with(&self, name: &Option<String>) -> (text: String)
        ensures
            text@ == message_of(*self, name_view(*name)),
    {
        let mut out = String::new();
        match self {
            Report::Killed { pid } => {
                out.append("killed inferior (pid: ");
                push_decimal(&mut out, *pid as i64);
                out.append(")");
            },
            Report::KillFailed => {
                out.append("failed to kill child");
            },
            Report::StartFailed => {
                out.append("Error starting subprocess");
            },
            Report::NoProcess => {
                out.append("no child start");
            },
            Report::Exited { code } => {
                out.append("child exited (status ");
                push_decimal(&mut out, *code as i64);
                out.append(")");
            },
            Report::Signaled { signal } => {
                out.append("child signaled (sigcode: ");
                push_signal(&mut out, *signal, name);
                out.append(")");
            },
            Report::Stopped { signal, rip, frame } => {
                out.append("child stopped (signal: ");
                push_signal(&mut out, *signal, name);
                match frame {
                    Some(place) => {
                        out.append(")\n");
                        push_frame(&mut out, place);
                    },
                    None => {
                        out.append(")");
                    },
                }
            },
            Report::Lost { error } => {
                out.append("Error wakeup subprocess");
            },
            Report::Frame(place) => {
                push_frame(&mut out, place);
            },
            Report::BacktraceFailed => {
                out.append("failed to backtrace");
            },
            Report::BadAddress => {
                out.append("parse addr error");
            },
            Report::NoSuchLine => {
                out.append("get addr for line error");
            },
            Report::NoSuchFunction => {
                out.append("get addr for function");
            },
            Report::BreakpointSet { index, addr } => {
                out.append("set breakpoint ");
                push_digits(&mut out, *index as u64, 10);
                out.append(" at ");
                push_hex(&mut out, *addr);
            },
            Report::AlreadySet { addr } => {
                push_hex(&mut out, *addr);
                out.append(" has already been set");
            },
            Report::InstallFailed { addr } => {
                out.append("set breakpoint at: ");
                push_hex(&mut out, *addr);
                out.append(" error");
            },
            Report::WriteFailed { addr } => {
                out.append("write byte: ");
                push_hex(&mut out, TRAP as u64);
                out.append(" error");
            },
        }
        assert(out@ =~= message_of(*self, name_view(*name)));
        out
    }

    /// The text of the report, with the name that `nix` has for its signal.
    pub fn message(&self) -> (text: String)
        ensures
            text@ == message_of(
                *self,
                match signal_of(*self) {
                    Some(signal) => signal_name(signal),
                    None => None,
                },
            ),
    {
        let name = match self {
            Report::Signaled { signal } => name_signal(*signal),
            Report::Stopped { signal, .. } => name_signal(*signal),
            _ => None,
        };
        let text = self.message_with(&name);
        assert(signal_of(*self) is None ==> message_of(*self, name_view(name)) == message_of(
            *self,
            None,
        ));
        text
    }
}

} // verus!
