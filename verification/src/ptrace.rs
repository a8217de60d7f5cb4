//! The tracing facility of Linux on x86-64, reached through `nix`.

use crate::trace::{arg_views, Change, Event, Registers, TraceError, Tracer};
use nix::errno::Errno;
use nix::libc::user_regs_struct;
use nix::sys::ptrace;
use nix::sys::wait::{waitpid, WaitPidFlag, WaitStatus};
use nix::unistd::Pid;
use vstd::prelude::*;

verus! {

/// `nix::errno::Errno`, an error code of the operating system.
#[verifier::external_type_specification]
#[verifier::external_body]
pub struct ExErrno(nix::errno::Errno);

/// `libc::user_regs_struct`, the full register set of a stopped process.
#[verifier::external_type_specification]
#[verifier::external_body]
pub struct ExUserRegs(nix::libc::user_regs_struct);

/// The number of an error code: `nix::errno::Errno` is an enum over `i32`, and
/// this is the cast.  Nothing is claimed of the number.
#[verifier::external_body]
fn errno_code(e: Errno) -> i32 {
    e as i32
}

/// `nix::sys::ptrace::read`, which asks for `PTRACE_PEEKDATA`.  Nothing is
/// claimed of the reply: it is whatever the kernel answers.
#[verifier::external_body]
fn ptrace_read(pid: i32, addr: u64) -> Result<u64, Errno> {
    match ptrace::read(Pid::from_raw(pid), addr as ptrace::AddressType) {
        Ok(word) => Ok(word as u64),
        Err(e) => Err(e),
    }
}

/// `nix::sys::ptrace::write`, which asks for `PTRACE_POKEDATA`.  Nothing is
/// claimed of the reply.
#[verifier::external_body]
fn ptrace_write(pid: i32, addr: u64, word: u64) -> Result<(), Errno> {
    ptrace::write(Pid::from_raw(pid), addr as ptrace::AddressType, word as i64)
}

/// `nix::sys::ptrace::getregs`, which asks for `PTRACE_GETREGS`.  Nothing is
/// claimed of the reply.
#[verifier::external_body]
fn ptrace_getregs(pid: i32) -> Result<user_regs_struct, Errno> {
    ptrace::getregs(Pid::from_raw(pid))
}

/// `nix::sys::ptrace::setregs`, which asks for `PTRACE_SETREGS`.  Nothing is
/// claimed of the reply.
#[verifier::external_body]
fn ptrace_setregs(pid: i32, raw: user_regs_struct) -> Result<(), Errno> {
    ptrace::setregs(Pid::from_raw(pid), raw)
}

/// `nix::sys::ptrace::cont` without a signal to deliver, which asks for
/// `PTRACE_CONT`.  Nothing is claimed of the reply.
#[verifier::external_body]
fn ptrace_cont(pid: i32) -> Result<(), Errno> {
    ptrace::cont(Pid::from_raw(pid), None)
}

/// `nix::sys::ptrace::step` without a signal to deliver, which asks for
/// `PTRACE_SINGLESTEP`.  Nothing is claimed of the reply.
#[verifier::external_body]
fn ptrace_step(pid: i32) -> Result<(), Errno> {
    ptrace::step(Pid::from_raw(pid), None)
}

/// `nix::sys::ptrace::kill`, which asks for `PTRACE_KILL`.  Nothing is claimed
/// of the reply.
#[verifier::external_body]
fn ptrace_kill(pid: i32) -> Result<(), Errno> {
    ptrace::kill(Pid::from_raw(pid))
}

/// `nix::sys::ptrace::traceme`, which asks for `PTRACE_TRACEME`: the calling
/// process is to be traced by its parent.  Nothing is claimed of the reply.
#[verifier::external_body]
fn ptrace_traceme() -> Result<(), Errno> {
    ptrace::traceme()
}

/// `nix::sys::wait::waitpid`, with the flag `WSTOPPED` where `stops` is set.
/// The call returns when the process changes state, and not before.  The
/// status comes back variant by variant; nothing is claimed of which one it
/// is.
#[verifier::external_body]
fn wait_for(pid: i32, stops: bool) -> Result<Change, Errno> {
    match waitpid(Pid::from_raw(pid), stops.then_some(WaitPidFlag::WSTOPPED))? {
        WaitStatus::Exited(_, code) => Ok(Change::Exited(code)),
        WaitStatus::Signaled(_, signal, _) => Ok(Change::Signaled(signal as i32)),
        WaitStatus::Stopped(_, signal) => Ok(Change::Stopped(signal as i32)),
        WaitStatus::PtraceEvent(_, _, _) => Ok(Change::Other),
        WaitStatus::PtraceSyscall(_) => Ok(Change::Other),
        WaitStatus::Continued(_) => Ok(Change::Other),
        WaitStatus::StillAlive => Ok(Change::Other),
    }
}

/// Picks the three pointers out of a full register set: a copy of three
/// fields of the `libc` struct.
#[verifier::external_body]
fn pointers_of(raw: &user_regs_struct) -> Registers {
    Registers { rip: raw.rip, rsp: raw.rsp, rbp: raw.rbp }
}

/// Puts the three pointers into a full register set and leaves the other
/// registers as they are: three fields of the `libc` struct are replaced.
#[verifier::external_body]
fn with_pointers(raw: user_regs_struct, regs: Registers) -> user_regs_struct {
    user_regs_struct { rip: regs.rip, rsp: regs.rsp, rbp: regs.rbp, ..raw }
}

/// Starts programs so that they stop before their first instruction and are
/// traced by the process that started them.
///
/// The start itself is done outside this library; a launcher promises nothing.
pub trait Launcher {
    /// The id of the new process, or `None` if it could not be started.
    fn launch(&mut self, target: &str, args: &Vec<String>) -> Option<i32>;
}

/// The tracing facility of the running system.
pub struct Ptrace<L> {
    launcher: L,
    log: Ghost<Seq<Event>>,
}

impl<L: Launcher> Ptrace<L> {
    /// The tracing facility, with nothing requested of it yet.
    pub fn new(launcher: L) -> (os: Ptrace<L>)
        ensures
            os.history() == Seq::<Event>::empty(),
    {
        Ptrace { launcher, log: Ghost(Seq::empty()) }
    }

    /// Enters a request and its reply in the record.
    fn record(&mut self, event: Ghost<Event>)
        ensures
            final(self).history() == old(self).history().push(event@),
    {
        self.log = Ghost(self.log@.push(event@));
    }
}

/// Asks that the calling process be traced by its parent.  This is for a
/// process that is about to become the program under trace.  Whether the
/// request is granted lies with the operating system; a refusal comes back
/// with its error code.
pub fn traceme() -> (done: Result<(), TraceError>)
    ensures
        done matches Err(e) ==> e is Os,
{
    os_error(ptrace_traceme())
}

/// The reply of the operating system, with an error as its number.
fn os_error<T>(reply: Result<T, Errno>) -> (out: Result<T, TraceError>)
    ensures
        reply matches Ok(value) ==> out == Ok::<T, TraceError>(value),
        reply is Err ==> (out matches Err(e) && e is Os),
{
    match reply {
        Ok(value) => Ok(value),
        Err(e) => Err(TraceError::Os(errno_code(e))),
    }
}

impl<L: Launcher> Tracer for Ptrace<L> {
    closed spec fn history(&self) -> Seq<Event> {
        self.log@
    }

    fn launch(&mut self, target: &str, args: &Vec<String>) -> (reply: Option<i32>) {
        let reply = self.launcher.launch(target, args);
        self.record(Ghost(Event::Launch { target: target@, args: arg_views(args@), reply }));
        reply
    }

    fn peek(&mut self, pid: i32, addr: u64) -> (reply: Result<u64, TraceError>) {
        let reply = os_error(ptrace_read(pid, addr));
        self.record(Ghost(Event::Peek { pid, addr, reply }));
        reply
    }

    fn poke(&mut self, pid: i32, addr: u64, word: u64) -> (reply: Result<(), TraceError>) {
        let reply = os_error(ptrace_write(pid, addr, word));
        self.record(Ghost(Event::Poke { pid, addr, word, reply }));
        reply
    }

    fn registers(&mut self, pid: i32) -> (reply: Result<Registers, TraceError>) {
        let reply = match os_error(ptrace_getregs(pid)) {
            Ok(raw) => Ok(pointers_of(&raw)),
            Err(e) => Err(e),
        };
        self.record(Ghost(Event::GetRegs { pid, reply }));
        reply
    }

    fn set_registers(&mut self, pid: i32, regs: Registers) -> (reply: Result<(), TraceError>) {
        let reply = match os_error(ptrace_getregs(pid)) {
            Ok(raw) => os_error(ptrace_setregs(pid, with_pointers(raw, regs))),
            Err(e) => Err(e),
        };
        self.record(Ghost(Event::SetRegs { pid, regs, reply }));
        reply
    }

    fn resume(&mut self, pid: i32) -> (reply: Result<(), TraceError>) {
        let reply = os_error(ptrace_cont(pid));
        self.record(Ghost(Event::Resume { pid, reply }));
        reply
    }

    fn step(&mut self, pid: i32) -> (reply: Result<(), TraceError>) {
        let reply = os_error(ptrace_step(pid));
        self.record(Ghost(Event::Step { pid, reply }));
        reply
    }

    fn wait(&mut self, pid: i32, stops: bool) -> (reply: Result<Change, TraceError>) {
        let reply = os_error(wait_for(pid, stops));
        self.record(Ghost(Event::Wait { pid, stops, reply }));
        reply
    }

    fn kill(&mut self, pid: i32) -> (reply: Result<(), TraceError>) {
        let reply = os_error(ptrace_kill(pid));
        self.record(Ghost(Event::Kill { pid, reply }));
        reply
    }
}

} // verus!
