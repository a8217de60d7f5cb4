//! The process-tracing facility, seen from the debugger.
//!
//! The debugger makes requests of the operating system and decides what to do
//! next from the replies.  Nothing is known of a reply before it arrives, so a
//! `Tracer` keeps a record of every request together with its reply, and the
//! debugger's contracts say which requests were made, in which order, and how
//! the outcome follows from the replies.

use vstd::prelude::*;

verus! {

/// Why a request to the tracing facility failed.
#[derive(Clone, Copy, PartialEq, Eq, Debug, Structural)]
pub enum TraceError {
    /// The operating system refused the request; the number is its error code.
    Os(i32),
    /// A wait reported a state that a traced process is never seen in.
    Unexpected,
}

/// The registers that the debugger reads and sets.
#[derive(Clone, Copy, PartialEq, Eq, Debug, Structural)]
pub struct Registers {
    /// Instruction pointer.
    pub rip: u64,
    /// Stack pointer.
    pub rsp: u64,
    /// Frame base pointer.
    pub rbp: u64,
}

/// What a wait saw happen to the traced process.
#[derive(Clone, Copy, PartialEq, Eq, Debug, Structural)]
pub enum Change {
    /// It exited with this code.
    Exited(i32),
    /// This signal killed it.
    Signaled(i32),
    /// This signal stopped it.
    Stopped(i32),
    /// Anything else.
    Other,
}

/// One request to the tracing facility and the reply to it.
#[allow(inconsistent_fields)]
pub enum Event {
    Launch { target: Seq<char>, args: Seq<Seq<char>>, reply: Option<i32> },
    Peek { pid: i32, addr: u64, reply: Result<u64, TraceError> },
    Poke { pid: i32, addr: u64, word: u64, reply: Result<(), TraceError> },
    GetRegs { pid: i32, reply: Result<Registers, TraceError> },
    SetRegs { pid: i32, regs: Registers, reply: Result<(), TraceError> },
    Resume { pid: i32, reply: Result<(), TraceError> },
    Step { pid: i32, reply: Result<(), TraceError> },
    Wait { pid: i32, stops: bool, reply: Result<Change, TraceError> },
    Kill { pid: i32, reply: Result<(), TraceError> },
}

/// The views of a list of arguments.
pub open spec fn arg_views(args: Seq<String>) -> Seq<Seq<char>> {
    args.map_values(|s: String| s@)
}

/// `longer` starts with `shorter`.
pub open spec fn extends(longer: Seq<Event>, shorter: Seq<Event>) -> bool {
    &&& shorter.len() <= longer.len()
    &&& forall|i: int| 0 <= i < shorter.len() ==> longer[i] == shorter[i]
}

/// A stretch of the record that was read as one operation: what the operation
/// came to, and the place in the record where it ended.
pub struct Run<R> {
    pub result: R,
    pub end: int,
}

/// The reply at place `at` of `h`, if a program was started there with
/// this target and these arguments.
pub open spec fn launched(
    h: Seq<Event>,
    at: int,
    target: Seq<char>,
    args: Seq<Seq<char>>,
) -> Option<Option<i32>> {
    if 0 <= at < h.len() {
        match h[at] {
            Event::Launch { target: t, args: a, reply } => if t == target && a == args {
                Some(reply)
            } else {
                None
            },
            _ => None,
        }
    } else {
        None
    }
}

/// The reply at place `at` of `h`, if the word at `addr` was read there.
pub open spec fn peeked(h: Seq<Event>, at: int, pid: i32, addr: u64) -> Option<
    Result<u64, TraceError>,
> {
    if 0 <= at < h.len() {
        match h[at] {
            Event::Peek { pid: p, addr: a, reply } => if p == pid && a == addr {
                Some(reply)
            } else {
                None
            },
            _ => None,
        }
    } else {
        None
    }
}

/// The reply at place `at` of `h`, if `word` was written at `addr` there.
pub open spec fn poked(h: Seq<Event>, at: int, pid: i32, addr: u64, word: u64) -> Option<
    Result<(), TraceError>,
> {
    if 0 <= at < h.len() {
        match h[at] {
            Event::Poke { pid: p, addr: a, word: w, reply } => if p == pid && a == addr && w
                == word {
                Some(reply)
            } else {
                None
            },
            _ => None,
        }
    } else {
        None
    }
}

/// The reply at place `at` of `h`, if the registers were read there.
pub open spec fn registers_read(h: Seq<Event>, at: int, pid: i32) -> Option<
    Result<Registers, TraceError>,
> {
    if 0 <= at < h.len() {
        match h[at] {
            Event::GetRegs { pid: p, reply } => if p == pid {
                Some(reply)
            } else {
                None
            },
            _ => None,
        }
    } else {
        None
    }
}

/// The reply at place `at` of `h`, if the registers were set to `regs` there.
pub open spec fn registers_set(h: Seq<Event>, at: int, pid: i32, regs: Registers) -> Option<
    Result<(), TraceError>,
> {
    if 0 <= at < h.len() {
        match h[at] {
            Event::SetRegs { pid: p, regs: r, reply } => if p == pid && r == regs {
                Some(reply)
            } else {
                None
            },
            _ => None,
        }
    } else {
        None
    }
}

/// The reply at place `at` of `h`, if the process was let run there.
pub open spec fn resumed(h: Seq<Event>, at: int, pid: i32) -> Option<Result<(), TraceError>> {
    if 0 <= at < h.len() {
        match h[at] {
            Event::Resume { pid: p, reply } => if p == pid {
                Some(reply)
            } else {
                None
            },
            _ => None,
        }
    } else {
        None
    }
}

/// The reply at place `at` of `h`, if the process was stepped there.
pub open spec fn stepped(h: Seq<Event>, at: int, pid: i32) -> Option<Result<(), TraceError>> {
    if 0 <= at < h.len() {
        match h[at] {
            Event::Step { pid: p, reply } => if p == pid {
                Some(reply)
            } else {
                None
            },
            _ => None,
        }
    } else {
        None
    }
}

/// The reply at place `at` of `h`, if the process was waited for there.
pub open spec fn waited(h: Seq<Event>, at: int, pid: i32, stops: bool) -> Option<
    Result<Change, TraceError>,
> {
    if 0 <= at < h.len() {
        match h[at] {
            Event::Wait { pid: p, stops: s, reply } => if p == pid && s == stops {
                Some(reply)
            } else {
                None
            },
            _ => None,
        }
    } else {
        None
    }
}

/// The reply at place `at` of `h`, if the process was killed there.
pub open spec fn killed(h: Seq<Event>, at: int, pid: i32) -> Option<Result<(), TraceError>> {
    if 0 <= at < h.len() {
        match h[at] {
            Event::Kill { pid: p, reply } => if p == pid {
                Some(reply)
            } else {
                None
            },
            _ => None,
        }
    } else {
        None
    }
}

/// The operating system's process-tracing facility.
///
/// Every method makes one request, returns the reply, and appends both to
/// `history`.  A method promises nothing about the reply itself.
pub trait Tracer {
    /// Every request made so far with its reply, oldest first.
    spec fn history(&self) -> Seq<Event>;

    /// Starts `target` with `args`, stopped before its first instruction and
    /// traced by the caller.  The reply is the new process's id.
    fn launch(&mut self, target: &str, args: &Vec<String>) -> (reply: Option<i32>)
        ensures
            final(self).history() == old(self).history().push(
                Event::Launch { target: target@, args: arg_views(args@), reply },
            ),
    ;

    /// Reads the word at `addr` in the memory of process `pid`.
    fn peek(&mut self, pid: i32, addr: u64) -> (reply: Result<u64, TraceError>)
        ensures
            final(self).history() == old(self).history().push(Event::Peek { pid, addr, reply }),
    ;

    /// Writes `word` at `addr` in the memory of process `pid`.
    fn poke(&mut self, pid: i32, addr: u64, word: u64) -> (reply: Result<(), TraceError>)
        ensures
            final(self).history() == old(self).history().push(
                Event::Poke { pid, addr, word, reply },
            ),
    ;

    /// Reads the registers of process `pid`.
    fn registers(&mut self, pid: i32) -> (reply: Result<Registers, TraceError>)
        ensures
            final(self).history() == old(self).history().push(Event::GetRegs { pid, reply }),
    ;

    /// Sets the registers of process `pid`.
    fn set_registers(&mut self, pid: i32, regs: Registers) -> (reply: Result<(), TraceError>)
        ensures
            final(self).history() == old(self).history().push(
                Event::SetRegs { pid, regs, reply },
            ),
    ;

    /// Lets process `pid` run.
    fn resume(&mut self, pid: i32) -> (reply: Result<(), TraceError>)
        ensures
            final(self).history() == old(self).history().push(Event::Resume { pid, reply }),
    ;

    /// Lets process `pid` run for one instruction.
    fn step(&mut self, pid: i32) -> (reply: Result<(), TraceError>)
        ensures
            final(self).history() == old(self).history().push(Event::Step { pid, reply }),
    ;

    /// Blocks until process `pid` changes state.  With `stops`, a stop by a
    /// signal counts as a change also for a process that is not traced.
    fn wait(&mut self, pid: i32, stops: bool) -> (reply: Result<Change, TraceError>)
        ensures
            final(self).history() == old(self).history().push(Event::Wait { pid, stops, reply }),
    ;

    /// Kills process `pid`.
    fn kill(&mut self, pid: i32) -> (reply: Result<(), TraceError>)
        ensures
            final(self).history() == old(self).history().push(Event::Kill { pid, reply }),
    ;
}

} // verus!
