//! The debugger session.
//!
//! A session owns the tracing facility, the symbol table, the breakpoints and
//! at most one traced process.  It takes one command at a time and answers
//! with reports for the user and with what to do next.  Reading commands and
//! showing reports is left to the caller.

use crate::breakpoints::{
    all_pending, distinct, install_run, is_set, lemma_install_arms, lemma_install_stable,
    lemma_set_twice, set_run, BreakPoint, BreakpointTable, Placed, TRAP,
};
use crate::command::DebuggerCommand;
use crate::inferior::{
    backtrace_run, byte_written, kill_run, resume_run, start_run, Inferior, Status,
};
use crate::report::{Next, Outcome, Report};
use crate::symbols::{Frame, SymbolTable};
use crate::text::{addr_of, number_of, parse_addr, parse_count};
use crate::trace::{arg_views, extends, resumed, Event, Run, TraceError, Tracer};
use vstd::prelude::*;

verus! {

/// What a command can change in a session.
pub struct State {
    pub inferior: Option<Inferior>,
    pub points: Seq<BreakPoint>,
}

/// What a command came to.
pub struct Turn {
    pub reports: Seq<Report>,
    pub next: Next,
    pub state: State,
}

/// Breakpoints are installed only while there is a process, and no two are at
/// one address.
pub open spec fn valid(state: State) -> bool {
    &&& distinct(state.points)
    &&& state.inferior is None ==> forall|i: int|
        0 <= i < state.points.len() ==> !(#[trigger] state.points[i]).installed
}

/// `state` once its process is gone.
pub open spec fn gone(state: State) -> State {
    State { inferior: None, points: all_pending(state.points) }
}

/// `run` with `reports` put in front of its own.
pub open spec fn after(reports: Seq<Report>, run: Option<Run<Turn>>) -> Option<Run<Turn>> {
    match run {
        None => None,
        Some(Run { result, end }) => Some(
            Run {
                result: Turn {
                    reports: reports + result.reports,
                    next: result.next,
                    state: result.state,
                },
                end,
            },
        ),
    }
}

/// What is told of the addresses where no trap could be written.
pub open spec fn failures(addrs: Seq<u64>) -> Seq<Report> {
    Seq::new(addrs.len(), |i: int| Report::WriteFailed { addr: addrs[i] })
}

/// What is told of a call stack.
pub open spec fn stack_lines(frames: Seq<Frame>) -> Seq<Report> {
    Seq::new(frames.len(), |i: int| Report::Frame(frames[i]))
}

/// What a session does with the status of its process.  A stop is reported
/// with the place where it happened.  After an exit or a deadly signal the
/// process is gone.  A failure is fatal.
pub open spec fn settle(
    symbols: SymbolTable,
    state: State,
    status: Result<Status, TraceError>,
) -> Turn {
    match status {
        Ok(Status::Stopped(signal, rip)) => Turn {
            reports: seq![Report::Stopped { signal, rip, frame: symbols.frame_at(rip) }],
            next: Next::Prompt,
            state,
        },
        Ok(Status::Exited(code)) => Turn {
            reports: seq![Report::Exited { code }],
            next: Next::Prompt,
            state: gone(state),
        },
        Ok(Status::Signaled(signal)) => Turn {
            reports: seq![Report::Signaled { signal }],
            next: Next::Prompt,
            state: gone(state),
        },
        Err(error) => Turn {
            reports: seq![Report::Lost { error }],
            next: Next::Abort,
            state: gone(state),
        },
    }
}

/// Letting the process of `state` run until it changes state.
pub open spec fn wakeup_turn(h: Seq<Event>, at: int, symbols: SymbolTable, state: State) -> Option<
    Run<Turn>,
> {
    match state.inferior {
        None => None,
        Some(process) => match resume_run(h, at, process.pid, state.points) {
            None => None,
            Some(Run { result, end }) => Some(Run { result: settle(symbols, state, result), end }),
        },
    }
}

/// The command `continue`: with no process, a report of that and nothing else.
pub open spec fn continue_turn(
    h: Seq<Event>,
    at: int,
    symbols: SymbolTable,
    state: State,
) -> Option<Run<Turn>> {
    if state.inferior is None {
        Some(
            Run {
                result: Turn { reports: seq![Report::NoProcess], next: Next::Prompt, state },
                end: at,
            },
        )
    } else {
        wakeup_turn(h, at, symbols, state)
    }
}

/// Getting rid of the process of `state`, if it has one.  Whether or not the
/// kill goes well, the session is without a process afterwards.
pub open spec fn kill_turn(h: Seq<Event>, at: int, state: State) -> Option<Run<Turn>> {
    match state.inferior {
        None => Some(
            Run { result: Turn { reports: Seq::empty(), next: Next::Prompt, state }, end: at },
        ),
        Some(process) => match kill_run(h, at, process.pid) {
            None => None,
            Some(Run { result: Ok(()), end }) => Some(
                Run {
                    result: Turn {
                        reports: seq![Report::Killed { pid: process.pid }],
                        next: Next::Prompt,
                        state: gone(state),
                    },
                    end,
                },
            ),
            Some(Run { result: Err(_), end }) => Some(
                Run {
                    result: Turn {
                        reports: seq![Report::KillFailed],
                        next: Next::Prompt,
                        state: gone(state),
                    },
                    end,
                },
            ),
        },
    }
}

/// Starting the program in a session without a process: the program is
/// started, every breakpoint is installed in it, and only then is it let run.
pub open spec fn launch_turn(
    h: Seq<Event>,
    at: int,
    target: Seq<char>,
    args: Seq<Seq<char>>,
    symbols: SymbolTable,
    points: Seq<BreakPoint>,
) -> Option<Run<Turn>> {
    match start_run(h, at, target, args) {
        None => None,
        Some(Run { result: None, end }) => Some(
            Run {
                result: Turn {
                    reports: seq![Report::StartFailed],
                    next: Next::Prompt,
                    state: State { inferior: None, points },
                },
                end,
            },
        ),
        Some(Run { result: Some(process), end }) => match install_run(
            h,
            end,
            process.pid,
            points,
            0,
        ) {
            None => None,
            Some(Run { result: installed, end }) => after(
                failures(installed.failed),
                wakeup_turn(
                    h,
                    end,
                    symbols,
                    State { inferior: Some(process), points: installed.points },
                ),
            ),
        },
    }
}

/// The command `run`: a process that is there is killed first.
pub open spec fn run_turn(
    h: Seq<Event>,
    at: int,
    target: Seq<char>,
    args: Seq<Seq<char>>,
    symbols: SymbolTable,
    state: State,
) -> Option<Run<Turn>> {
    match kill_turn(h, at, state) {
        None => None,
        Some(Run { result, end }) => after(
            result.reports,
            launch_turn(h, end, target, args, symbols, result.state.points),
        ),
    }
}

/// The command `backtrace`.
pub open spec fn backtrace_turn(
    h: Seq<Event>,
    at: int,
    symbols: SymbolTable,
    state: State,
) -> Option<Run<Turn>> {
    match state.inferior {
        None => Some(
            Run {
                result: Turn { reports: seq![Report::NoProcess], next: Next::Prompt, state },
                end: at,
            },
        ),
        Some(process) => match backtrace_run(h, at, process.pid, symbols) {
            None => None,
            Some(Run { result: Ok(frames), end }) => Some(
                Run {
                    result: Turn { reports: stack_lines(frames), next: Next::Prompt, state },
                    end,
                },
            ),
            Some(Run { result: Err(_), end }) => Some(
                Run {
                    result: Turn {
                        reports: seq![Report::BacktraceFailed],
                        next: Next::Prompt,
                        state,
                    },
                    end,
                },
            ),
        },
    }
}

/// The source file that line numbers and function names refer to.
pub open spec fn source_of(target: Seq<char>) -> Seq<char> {
    target + ".c"@
}

/// The address that `place` names: after `*` an address; else a line number
/// of the source file, if `place` is a number; else a function of the source
/// file.
pub open spec fn location_of(target: Seq<char>, symbols: SymbolTable, place: Seq<char>) -> Result<
    u64,
    Report,
> {
    if place.len() > 0 && place[0] == '*' {
        match addr_of(place.skip(1)) {
            Some(addr) => Ok(addr as u64),
            None => Err(Report::BadAddress),
        }
    } else {
        match number_of(place, 10, usize::MAX as nat) {
            Some(number) => match symbols.addr_for_line(source_of(target), number as usize) {
                Some(addr) => Ok(addr),
                None => Err(Report::NoSuchLine),
            },
            None => match symbols.addr_for_function(source_of(target), place) {
                Some(addr) => Ok(addr),
                None => Err(Report::NoSuchFunction),
            },
        }
    }
}

/// What is told of a request to set a breakpoint at `addr`.
pub open spec fn placed_report(placed: Placed, addr: u64) -> Report {
    match placed {
        Placed::New(index) => Report::BreakpointSet { index, addr },
        Placed::AlreadySet => Report::AlreadySet { addr },
        Placed::Failed(_) => Report::InstallFailed { addr },
    }
}

/// Setting a breakpoint at `addr`.
pub open spec fn set_turn(h: Seq<Event>, at: int, state: State, addr: u64) -> Option<Run<Turn>> {
    match set_run(h, at, state.inferior, state.points, addr) {
        None => None,
        Some(Run { result: (points, placed), end }) => Some(
            Run {
                result: Turn {
                    reports: seq![placed_report(placed, addr)],
                    next: Next::Prompt,
                    state: State { inferior: state.inferior, points },
                },
                end,
            },
        ),
    }
}

/// The command `break`: a place that names no address is reported, and
/// nothing is changed.
pub open spec fn break_turn(
    h: Seq<Event>,
    at: int,
    target: Seq<char>,
    symbols: SymbolTable,
    state: State,
    place: Seq<char>,
) -> Option<Run<Turn>> {
    match location_of(target, symbols, place) {
        Err(report) => Some(
            Run { result: Turn { reports: seq![report], next: Next::Prompt, state }, end: at },
        ),
        Ok(addr) => set_turn(h, at, state, addr),
    }
}

/// The command `quit`: a process that is there is killed.
pub open spec fn quit_turn(h: Seq<Event>, at: int, state: State) -> Option<Run<Turn>> {
    match kill_turn(h, at, state) {
        None => None,
        Some(Run { result, end }) => Some(
            Run {
                result: Turn { reports: result.reports, next: Next::Exit, state: result.state },
                end,
            },
        ),
    }
}

/// What a session does with a command.
pub open spec fn command_turn(
    h: Seq<Event>,
    at: int,
    target: Seq<char>,
    symbols: SymbolTable,
    state: State,
    command: DebuggerCommand,
) -> Option<Run<Turn>> {
    match command {
        DebuggerCommand::Run(args) => run_turn(h, at, target, arg_views(args@), symbols, state),
        DebuggerCommand::Continue => continue_turn(h, at, symbols, state),
        DebuggerCommand::Backtrace => backtrace_turn(h, at, symbols, state),
        DebuggerCommand::Break(place) => break_turn(h, at, target, symbols, state, place@),
        DebuggerCommand::Quit => quit_turn(h, at, state),
    }
}

/// `continue` in a session without a process: the answer is that there is
/// none, nothing is asked of the tracing facility, and the session stays as
/// it is.
pub proof fn lemma_continue_without_process(
    h: Seq<Event>,
    at: int,
    target: Seq<char>,
    symbols: SymbolTable,
    state: State,
)
    requires
        state.inferior is None,
    ensures
        command_turn(h, at, target, symbols, state, DebuggerCommand::Continue) == Some(
            Run {
                result: Turn { reports: seq![Report::NoProcess], next: Next::Prompt, state },
                end: at,
            },
        ),
{
}

/// A breakpoint that is set while there is no process is entered as pending,
/// without a request to the tracing facility.
pub proof fn lemma_break_without_process(h: Seq<Event>, at: int, state: State, addr: u64)
    requires
        state.inferior is None,
        !is_set(state.points, addr),
    ensures
        set_turn(h, at, state, addr) == Some(
            Run {
                result: Turn {
                    reports: seq![
                        Report::BreakpointSet { index: state.points.len() as usize, addr },
                    ],
                    next: Next::Prompt,
                    state: State {
                        inferior: None,
                        points: state.points.push(
                            BreakPoint { addr, origin_byte: 0, installed: false },
                        ),
                    },
                },
                end: at,
            },
        ),
{
}

/// A start that gets as far as letting the process run has dealt with every
/// breakpoint before: each one is installed, with the trap written at its
/// address before the request to let the process run, or its address is
/// reported as a failure.
pub proof fn lemma_launch_installs_first(
    h: Seq<Event>,
    at: int,
    target: Seq<char>,
    args: Seq<Seq<char>>,
    symbols: SymbolTable,
    points: Seq<BreakPoint>,
    j: int,
)
    requires
        0 <= at,
        0 <= j < points.len(),
        forall|i: int| 0 <= i < points.len() ==> !(#[trigger] points[i]).installed,
        launch_turn(h, at, target, args, symbols, points) is Some,
        start_run(h, at, target, args) matches Some(started) && started.result is Some,
    ensures
        ({
            let started = start_run(h, at, target, args).unwrap();
            let process = started.result.unwrap();
            let installed = install_run(h, started.end, process.pid, points, 0).unwrap();
            let armed = installed.result.points;
            &&& armed.len() == points.len()
            &&& armed[j].addr == points[j].addr
            &&& resumed(h, installed.end, process.pid) is Some
            &&& armed[j].installed ==> exists|k: int|
                started.end <= k < installed.end && #[trigger] byte_written(
                    h,
                    k,
                    process.pid,
                    points[j].addr,
                    TRAP,
                )
            &&& !armed[j].installed ==> launch_turn(
                h,
                at,
                target,
                args,
                symbols,
                points,
            ).unwrap().result.reports.contains(Report::WriteFailed { addr: points[j].addr })
        }),
{
    let started = start_run(h, at, target, args).unwrap();
    let process = started.result.unwrap();
    let installed = install_run(h, started.end, process.pid, points, 0).unwrap();
    assert(started.end >= at);
    lemma_install_arms(h, started.end, process.pid, points, 0, j);
    if !installed.result.points[j].installed {
        let failed = installed.result.failed;
        let m = choose|m: int| 0 <= m < failed.len() && failed[m] == points[j].addr;
        let woken = wakeup_turn(
            h,
            installed.end,
            symbols,
            State { inferior: Some(process), points: installed.result.points },
        ).unwrap();
        let reports = launch_turn(h, at, target, args, symbols, points).unwrap().result.reports;
        assert(reports == failures(failed) + woken.result.reports);
        assert(reports[m] == Report::WriteFailed { addr: points[j].addr });
    }
}

/// A breakpoint is set once: after `break` has set one at an address, `break`
/// for that address is answered with `AlreadySet`, asks nothing of the
/// tracing facility, and leaves the session as it is.
pub proof fn lemma_break_twice(
    h: Seq<Event>,
    at: int,
    state: State,
    addr: u64,
    later: Seq<Event>,
    again: int,
)
    requires
        valid(state),
        set_turn(h, at, state, addr) matches Some(first)
            && first.result.reports[0] is BreakpointSet,
    ensures
        ({
            let between = set_turn(h, at, state, addr).unwrap().result.state;
            &&& valid(between)
            &&& set_turn(later, again, between, addr) == Some(
                Run {
                    result: Turn {
                        reports: seq![Report::AlreadySet { addr }],
                        next: Next::Prompt,
                        state: between,
                    },
                    end: again,
                },
            )
        }),
{
    lemma_set_twice(h, at, state.inferior, state.points, addr, later, again, state.inferior);
    let set = set_run(h, at, state.inferior, state.points, addr).unwrap();
    let between = set_turn(h, at, state, addr).unwrap().result.state;
    assert(set.result.1 is New);
    if state.inferior is None {
        assert forall|i: int| 0 <= i < between.points.len() implies !(
        #[trigger] between.points[i]).installed by {
            if i < state.points.len() {
                assert(between.points[i] == state.points[i]);
            }
        }
    }
}

/// A debugger session on one program.
pub struct Debugger<T> {
    target: String,
    os: T,
    inferior: Option<Inferior>,
    debug_data: SymbolTable,
    breakpoints: BreakpointTable,
}

impl<T: Tracer> Debugger<T> {
    /// The path of the program.
    pub closed spec fn target(&self) -> Seq<char> {
        self.target@
    }

    /// The record of the tracing facility.
    pub closed spec fn history(&self) -> Seq<Event> {
        self.os.history()
    }

    /// The symbol table of the program.
    pub closed spec fn symbols(&self) -> SymbolTable {
        self.debug_data
    }

    /// The process, if there is one, and the breakpoints.
    pub closed spec fn state(&self) -> State {
        State { inferior: self.inferior, points: self.breakpoints@ }
    }

    /// The session is in order.
    pub open spec fn wf(&self) -> bool {
        valid(self.state())
    }

    /// The session has done `turn`, and nothing else, since it was `before`:
    /// the record has grown by the requests of `turn`, the session is in the
    /// state that `turn` ends in, and `reports` and `next` are its answer.
    pub open spec fn did(
        &self,
        before: &Self,
        turn: Option<Run<Turn>>,
        reports: Seq<Report>,
        next: Next,
    ) -> bool {
        &&& self.wf()
        &&& self.target() == before.target()
        &&& self.symbols() == before.symbols()
        &&& extends(self.history(), before.history())
        &&& turn == Some(
            Run {
                result: Turn { reports, next, state: self.state() },
                end: self.history().len() as int,
            },
        )
    }

    /// A session on the program at `target`, with no process and no
    /// breakpoints.
    pub fn new(target: &str, os: T, debug_data: SymbolTable) -> (session: Debugger<T>)
        ensures
            session.wf(),
            session.target() == target@,
            session.history() == os.history(),
            session.symbols() == debug_data,
            session.state() == (State { inferior: None, points: Seq::empty() }),
    {
        Debugger {
            target: target.to_owned(),
            os,
            inferior: None,
            debug_data,
            breakpoints: BreakpointTable::new(),
        }
    }

    /// The tracing facility.
    pub fn tracer(&self) -> (os: &T)
        ensures
            os.history() == self.history(),
    {
        &self.os
    }

    /// The tracing facility, to act on it from outside the session.  What is
    /// requested of it there is entered in its record like any other request.
    pub fn tracer_mut(&mut self) -> (os: &mut T)
        ensures
            os.history() == old(self).history(),
            final(self).history() == final(os).history(),
            final(self).state() == old(self).state(),
            final(self).target() == old(self).target(),
            final(self).symbols() == old(self).symbols(),
    {
        &mut self.os
    }

    /// The traced process, if there is one.
    pub fn inferior(&self) -> (inferior: Option<Inferior>)
        ensures
            inferior == self.state().inferior,
    {
        self.inferior
    }

    /// The breakpoints.
    pub fn breakpoints(&self) -> (table: &BreakpointTable)
        ensures
            table@ == self.state().points,
    {
        &self.breakpoints
    }

    /// Forgets the process: what it held in memory is gone with it.
    fn forget(&mut self)
        requires
            distinct(old(self).state().points),
        ensures
            final(self).wf(),
            final(self).state() == gone(old(self).state()),
            final(self).target() == old(self).target(),
            final(self).symbols() == old(self).symbols(),
            final(self).history() == old(self).history(),
    {
        self.inferior = None;
        self.breakpoints.clear_installed();
    }

    /// Answers to the status that the process has come to.
    fn settled(&mut self, status: Result<Status, TraceError>) -> (outcome: Outcome)
        requires
            distinct(old(self).state().points),
            old(self).state().inferior is Some,
        ensures
            final(self).wf(),
            final(self).target() == old(self).target(),
            final(self).symbols() == old(self).symbols(),
            final(self).history() == old(self).history(),
            settle(old(self).symbols(), old(self).state(), status) == (Turn {
                reports: outcome.reports@,
                next: outcome.next,
                state: final(self).state(),
            }),
    {
        let mut reports: Vec<Report> = Vec::new();
        let next = match status {
            Ok(Status::Stopped(signal, rip)) => {
                let frame = self.debug_data.get_frame_from_addr(rip);
                reports.push(Report::Stopped { signal, rip, frame });
                Next::Prompt
            },
            Ok(Status::Exited(code)) => {
                reports.push(Report::Exited { code });
                self.forget();
                Next::Prompt
            },
            Ok(Status::Signaled(signal)) => {
                reports.push(Report::Signaled { signal });
                self.forget();
                Next::Prompt
            },
            Err(error) => {
                reports.push(Report::Lost { error });
                self.forget();
                Next::Abort
            },
        };
        assert(reports@ =~= settle(old(self).symbols(), old(self).state(), status).reports);
        Outcome { reports, next }
    }

    /// Lets the process run until it changes state, and reports the change.
    pub fn wakeup_wait(&mut self) -> (outcome: Outcome)
        requires
            old(self).wf(),
            old(self).state().inferior is Some,
        ensures
            final(self).did(
                old(self),
                wakeup_turn(
                    final(self).history(),
                    old(self).history().len() as int,
                    old(self).symbols(),
                    old(self).state(),
                ),
                outcome.reports@,
                outcome.next,
            ),
    {
        let process = self.inferior.unwrap();
        let status = process.wakeup_wait(&mut self.os, &self.breakpoints);
        self.settled(status)
    }

    /// Kills the process, if there is one.
    pub fn kill(&mut self) -> (outcome: Outcome)
        requires
            old(self).wf(),
        ensures
            final(self).did(
                old(self),
                kill_turn(
                    final(self).history(),
                    old(self).history().len() as int,
                    old(self).state(),
                ),
                outcome.reports@,
                outcome.next,
            ),
    {
        let mut reports: Vec<Report> = Vec::new();
        match self.inferior {
            None => {},
            Some(process) => {
                let mut process = process;
                match process.kill(&mut self.os) {
                    Ok(()) => {
                        reports.push(Report::Killed { pid: process.pid() });
                    },
                    Err(_) => {
                        reports.push(Report::KillFailed);
                    },
                }
                self.forget();
            },
        }
        proof {
            let turn = kill_turn(
                self.history(),
                old(self).history().len() as int,
                old(self).state(),
            );
            assert(turn is Some);
            assert(reports@ =~= turn.unwrap().result.reports);
        }
        Outcome { reports, next: Next::Prompt }
    }

    /// Starts the program with `args`, installs the breakpoints, and lets it
    /// run to its first stop.
    pub fn start(&mut self, args: &Vec<String>) -> (outcome: Outcome)
        requires
            old(self).wf(),
            old(self).state().inferior is None,
        ensures
            final(self).did(
                old(self),
                launch_turn(
                    final(self).history(),
                    old(self).history().len() as int,
                    old(self).target(),
                    arg_views(args@),
                    old(self).symbols(),
                    old(self).state().points,
                ),
                outcome.reports@,
                outcome.next,
            ),
    {
        let ghost h0 = self.history();
        match Inferior::new(&mut self.os, self.target.as_str(), args) {
            None => {
                let mut reports: Vec<Report> = Vec::new();
                reports.push(Report::StartFailed);
                proof {
                    let turn = launch_turn(
                        self.history(),
                        h0.len() as int,
                        self.target(),
                        arg_views(args@),
                        self.symbols(),
                        old(self).state().points,
                    );
                    assert(turn is Some);
                    assert(reports@ =~= turn.unwrap().result.reports);
                }
                Outcome { reports, next: Next::Prompt }
            },
            Some(process) => {
                let ghost h1 = self.history();
                let failed = self.breakpoints.reinstall_all(&mut self.os, &process);
                let ghost h2 = self.history();
                self.inferior = Some(process);
                let mut reports: Vec<Report> = Vec::new();
                let mut i: usize = 0;
                while i < failed.len()
                    invariant
                        i <= failed.len(),
                        reports@ == failures(failed@).take(i as int),
                    decreases failed.len() - i,
                {
                    reports.push(Report::WriteFailed { addr: failed[i] });
                    assert(failures(failed@).take(i + 1) =~= failures(failed@).take(i as int).push(
                        failures(failed@)[i as int],
                    ));
                    i += 1;
                }
                assert(reports@ =~= failures(failed@));
                let mut woken = self.wakeup_wait();
                reports.append(&mut woken.reports);
                proof {
                    let h3 = self.history();
                    assert(extends(h3, h1));
                    assert(start_run(h3, h0.len() as int, self.target(), arg_views(args@))
                        == start_run(h1, h0.len() as int, self.target(), arg_views(args@)));
                    lemma_install_stable(
                        h2,
                        h3,
                        h1.len() as int,
                        process.pid,
                        old(self).state().points,
                        0,
                    );
                }
                Outcome { reports, next: woken.next }
            },
        }
    }

    /// Shows the call stack of the stopped process.
    pub fn backtrace(&mut self) -> (outcome: Outcome)
        requires
            old(self).wf(),
        ensures
            final(self).did(
                old(self),
                backtrace_turn(
                    final(self).history(),
                    old(self).history().len() as int,
                    old(self).symbols(),
                    old(self).state(),
                ),
                outcome.reports@,
                outcome.next,
            ),
    {
        let mut reports: Vec<Report> = Vec::new();
        match self.inferior {
            None => {
                reports.push(Report::NoProcess);
            },
            Some(process) => match process.backtrace(&mut self.os, &self.debug_data) {
                Err(_) => {
                    reports.push(Report::BacktraceFailed);
                },
                Ok(frames) => {
                    let ghost found = frames@;
                    let mut i: usize = 0;
                    while i < frames.len()
                        invariant
                            i <= frames.len(),
                            frames@ == found,
                            reports@ == stack_lines(found).take(i as int),
                        decreases frames.len() - i,
                    {
                        let frame = &frames[i];
                        reports.push(
                            Report::Frame(
                                Frame {
                                    function: frame.function.clone(),
                                    file: frame.file.clone(),
                                    line: frame.line,
                                },
                            ),
                        );
                        assert(reports@ =~= stack_lines(found).take(i + 1));
                        i += 1;
                    }
                    assert(reports@ =~= stack_lines(found));
                },
            },
        }
        proof {
            let turn = backtrace_turn(
                self.history(),
                old(self).history().len() as int,
                old(self).symbols(),
                old(self).state(),
            );
            assert(turn is Some);
            assert(reports@ =~= turn.unwrap().result.reports);
        }
        Outcome { reports, next: Next::Prompt }
    }

    /// Sets a breakpoint at `addr`.
    pub fn set_bp(&mut self, addr: u64) -> (outcome: Outcome)
        requires
            old(self).wf(),
        ensures
            final(self).did(
                old(self),
                set_turn(
                    final(self).history(),
                    old(self).history().len() as int,
                    old(self).state(),
                    addr,
                ),
                outcome.reports@,
                outcome.next,
            ),
    {
        let placed = self.breakpoints.set(&mut self.os, self.inferior, addr);
        let mut reports: Vec<Report> = Vec::new();
        reports.push(
            match placed {
                Placed::New(index) => Report::BreakpointSet { index, addr },
                Placed::AlreadySet => Report::AlreadySet { addr },
                Placed::Failed(_) => Report::InstallFailed { addr },
            },
        );
        proof {
            let turn = set_turn(
                self.history(),
                old(self).history().len() as int,
                old(self).state(),
                addr,
            );
            assert(turn is Some);
            assert(reports@ =~= turn.unwrap().result.reports);
        }
        Outcome { reports, next: Next::Prompt }
    }

    /// The address that `place` names, or what to tell the user if it names
    /// none.
    pub fn locate(&self, place: &str) -> (found: Result<u64, Report>)
        ensures
            found == location_of(self.target(), self.symbols(), place@),
    {
        let n = place.unicode_len();
        if n > 0 && place.get_char(0) == '*' {
            let rest = place.substring_char(1, n);
            assert(rest@ =~= place@.skip(1));
            match parse_addr(rest) {
                Some(addr) => Ok(addr),
                None => Err(Report::BadAddress),
            }
        } else {
            let source = self.target.clone().concat(".c");
            match parse_count(place) {
                Some(number) => match self.debug_data.get_addr_for_line(source.as_str(), number) {
                    Some(addr) => Ok(addr),
                    None => Err(Report::NoSuchLine),
                },
                None => match self.debug_data.get_addr_for_function(source.as_str(), place) {
                    Some(addr) => Ok(addr),
                    None => Err(Report::NoSuchFunction),
                },
            }
        }
    }

    /// Does what `command` asks for.
    pub fn run(&mut self, command: DebuggerCommand) -> (outcome: Outcome)
        requires
            old(self).wf(),
        ensures
            final(self).did(
                old(self),
                command_turn(
                    final(self).history(),
                    old(self).history().len() as int,
                    old(self).target(),
                    old(self).symbols(),
                    old(self).state(),
                    command,
                ),
                outcome.reports@,
                outcome.next,
            ),
    {
        let ghost h0 = self.history();
        match command {
            DebuggerCommand::Run(args) => {
                let killed = self.kill();
                let ghost h1 = self.history();
                let mut reports = killed.reports;
                let mut started = self.start(&args);
                reports.append(&mut started.reports);
                proof {
                    assert(kill_turn(self.history(), h0.len() as int, old(self).state())
                        == kill_turn(h1, h0.len() as int, old(self).state()));
                }
                Outcome { reports, next: started.next }
            },
            DebuggerCommand::Continue => {
                if self.inferior.is_none() {
                    let mut reports: Vec<Report> = Vec::new();
                    reports.push(Report::NoProcess);
                    assert(reports@ =~= seq![Report::NoProcess]);
                    Outcome { reports, next: Next::Prompt }
                } else {
                    self.wakeup_wait()
                }
            },
            DebuggerCommand::Backtrace => self.backtrace(),
            DebuggerCommand::Break(place) => match self.locate(place.as_str()) {
                Err(report) => {
                    let mut reports: Vec<Report> = Vec::new();
                    reports.push(report);
                    assert(reports@ =~= seq![report]);
                    Outcome { reports, next: Next::Prompt }
                },
                Ok(addr) => self.set_bp(addr),
            },
            DebuggerCommand::Quit => {
                let killed = self.kill();
                Outcome { reports: killed.reports, next: Next::Exit }
            },
        }
    }
}

} // verus!
