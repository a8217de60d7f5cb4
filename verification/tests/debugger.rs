use deet::breakpoints::{BreakPoint, TRAP};
use deet::command::DebuggerCommand;
use deet::debugger::Debugger;
use deet::report::{Next, Report};
use deet::inferior::{Inferior, Status};
use deet::symbols::{Frame, Function, Line, SymbolTable};
use deet::trace::{Change, Event, Registers, TraceError, Tracer};
use std::collections::HashMap;

const SIGTRAP: i32 = 5;
const SIGSEGV: i32 = 11;
const EIO: i32 = 5;
const ESRCH: i32 = 3;

/// One instruction of the simulated program's run, with the base pointer that
/// holds while it executes.
#[derive(Clone, Copy)]
struct Insn {
    addr: u64,
    rbp: u64,
}

/// How the simulated program ends when it runs off its last instruction.
#[derive(Clone, Copy)]
enum Ending {
    Exit(i32),
    Signal(i32),
}

/// A request that the simulated system has seen.
#[derive(Clone, Debug, PartialEq)]
enum Call {
    Launch(String, Vec<String>),
    Peek(u64),
    Poke(u64, u64),
    GetRegs,
    SetRegs(Registers),
    Resume,
    Step,
    Wait(bool),
    Kill,
}

/// A simulated system with at most one traced process: memory by words, the
/// instructions that the program goes through, and a trap wherever the byte
/// at an instruction's address is the trap byte.
struct Sim {
    memory: HashMap<u64, u64>,
    path: Vec<Insn>,
    ending: Ending,
    next_pid: Option<i32>,
    at: usize,
    regs: Registers,
    alive: bool,
    pending: Option<Change>,
    calls: Vec<Call>,
    executed: Vec<(u64, u8)>,
    fail_wait: bool,
    /// Addresses where the process is stopped by a signal instead of
    /// executing the instruction, once each.
    faults: HashMap<u64, i32>,
    /// What the next wait reports instead of what happened, if set.
    odd_wait: Option<Change>,
    /// Words that can be read and not written.
    locked: Vec<u64>,
}

impl Sim {
    fn new(path: Vec<Insn>, ending: Ending) -> Sim {
        Sim {
            memory: HashMap::new(),
            path,
            ending,
            next_pid: Some(100),
            at: 0,
            regs: Registers { rip: 0, rsp: 0, rbp: 0 },
            alive: false,
            pending: None,
            calls: Vec::new(),
            executed: Vec::new(),
            fail_wait: false,
            faults: HashMap::new(),
            odd_wait: None,
            locked: Vec::new(),
        }
    }

    fn byte(&self, addr: u64) -> u8 {
        let word = self.memory[&(addr & !7)];
        (word >> (8 * (addr % 8))) as u8
    }

    fn set_word(&mut self, addr: u64, word: u64) {
        self.memory.insert(addr, word);
    }

    fn finish(&mut self) {
        self.alive = false;
        self.pending = Some(match self.ending {
            Ending::Exit(code) => Change::Exited(code),
            Ending::Signal(signal) => Change::Signaled(signal),
        });
    }

    /// Executes the instruction at the current place.  Returns false if the
    /// process stopped or ended instead of getting on.
    fn execute(&mut self) -> bool {
        if self.at >= self.path.len() {
            self.finish();
            return false;
        }
        let insn = self.path[self.at];
        if let Some(signal) = self.faults.remove(&insn.addr) {
            self.regs.rip = insn.addr;
            self.regs.rbp = insn.rbp;
            self.pending = Some(Change::Stopped(signal));
            return false;
        }
        let byte = self.byte(insn.addr);
        self.executed.push((insn.addr, byte));
        self.at += 1;
        if byte == TRAP {
            self.regs.rip = insn.addr + 1;
            self.regs.rbp = insn.rbp;
            self.pending = Some(Change::Stopped(SIGTRAP));
            return false;
        }
        match self.path.get(self.at) {
            Some(next) => {
                self.regs.rip = next.addr;
                self.regs.rbp = next.rbp;
            }
            None => {
                self.regs.rip = 0;
            }
        }
        true
    }
}

impl Tracer for Sim {
    fn history(&self) -> vstd::seq::Seq<Event> {
        unreachable!()
    }

    fn launch(&mut self, target: &str, args: &Vec<String>) -> Option<i32> {
        self.calls.push(Call::Launch(target.to_string(), args.clone()));
        let pid = self.next_pid?;
        self.alive = true;
        self.at = 0;
        self.regs.rip = self.path.first().map(|i| i.addr).unwrap_or(0);
        self.regs.rbp = self.path.first().map(|i| i.rbp).unwrap_or(0);
        self.pending = Some(Change::Stopped(SIGTRAP));
        Some(pid)
    }

    fn peek(&mut self, _pid: i32, addr: u64) -> Result<u64, TraceError> {
        self.calls.push(Call::Peek(addr));
        if !self.alive {
            return Err(TraceError::Os(ESRCH));
        }
        self.memory.get(&addr).copied().ok_or(TraceError::Os(EIO))
    }

    fn poke(&mut self, _pid: i32, addr: u64, word: u64) -> Result<(), TraceError> {
        self.calls.push(Call::Poke(addr, word));
        if !self.alive {
            return Err(TraceError::Os(ESRCH));
        }
        if !self.memory.contains_key(&addr) || self.locked.contains(&addr) {
            return Err(TraceError::Os(EIO));
        }
        self.memory.insert(addr, word);
        Ok(())
    }

    fn registers(&mut self, _pid: i32) -> Result<Registers, TraceError> {
        self.calls.push(Call::GetRegs);
        if !self.alive {
            return Err(TraceError::Os(ESRCH));
        }
        Ok(self.regs)
    }

    fn set_registers(&mut self, _pid: i32, regs: Registers) -> Result<(), TraceError> {
        self.calls.push(Call::SetRegs(regs));
        if !self.alive {
            return Err(TraceError::Os(ESRCH));
        }
        self.regs = regs;
        if let Some(i) = self.path.iter().position(|insn| insn.addr == regs.rip) {
            let back = (0..self.at).rev().find(|&j| self.path[j].addr == regs.rip);
            self.at = back.unwrap_or(i);
        }
        Ok(())
    }

    fn resume(&mut self, _pid: i32) -> Result<(), TraceError> {
        self.calls.push(Call::Resume);
        if !self.alive {
            return Err(TraceError::Os(ESRCH));
        }
        while self.execute() {}
        Ok(())
    }

    fn step(&mut self, _pid: i32) -> Result<(), TraceError> {
        self.calls.push(Call::Step);
        if !self.alive {
            return Err(TraceError::Os(ESRCH));
        }
        if self.execute() {
            if self.at >= self.path.len() {
                self.finish();
            } else {
                self.pending = Some(Change::Stopped(SIGTRAP));
            }
        }
        Ok(())
    }

    fn wait(&mut self, _pid: i32, stops: bool) -> Result<Change, TraceError> {
        self.calls.push(Call::Wait(stops));
        if self.fail_wait {
            return Err(TraceError::Os(ESRCH));
        }
        if let Some(odd) = self.odd_wait.take() {
            return Ok(odd);
        }
        self.pending.take().ok_or(TraceError::Os(10))
    }

    fn kill(&mut self, _pid: i32) -> Result<(), TraceError> {
        self.calls.push(Call::Kill);
        if !self.alive {
            return Err(TraceError::Os(ESRCH));
        }
        self.alive = false;
        Ok(())
    }
}

const MAIN: u64 = 0x401000;
const HELPER: u64 = 0x401040;
const LEAF: u64 = 0x401080;
const STACK: u64 = 0x7fff_0000;

/// A program of three functions: `main` calls `helper`, which calls `leaf`.
/// Each instruction is one byte, `0x90`; the stack holds the frames of the
/// three as they are while `leaf` runs.
fn nested_program() -> Sim {
    let main_rbp = STACK + 0x100;
    let helper_rbp = STACK + 0x80;
    let leaf_rbp = STACK + 0x40;
    let path = vec![
        Insn { addr: MAIN, rbp: main_rbp },
        Insn { addr: MAIN + 1, rbp: main_rbp },
        Insn { addr: HELPER, rbp: helper_rbp },
        Insn { addr: HELPER + 1, rbp: helper_rbp },
        Insn { addr: LEAF, rbp: leaf_rbp },
        Insn { addr: LEAF + 1, rbp: leaf_rbp },
        Insn { addr: HELPER + 2, rbp: helper_rbp },
        Insn { addr: MAIN + 2, rbp: main_rbp },
    ];
    let mut sim = Sim::new(path, Ending::Exit(7));
    for base in [MAIN, HELPER, LEAF] {
        sim.set_word(base, 0x9090_9090_9090_9090);
    }
    // leaf's frame: saved base pointer of helper, then the return address
    sim.set_word(leaf_rbp, helper_rbp);
    sim.set_word(leaf_rbp + 8, HELPER + 2);
    // helper's frame: saved base pointer of main, then the return address
    sim.set_word(helper_rbp, main_rbp);
    sim.set_word(helper_rbp + 8, MAIN + 2);
    sim.set_word(main_rbp, 0);
    sim.set_word(main_rbp + 8, 0x400000);
    sim
}

fn function(name: &str, address: u64) -> Function {
    Function { file: "prog.c".to_string(), name: name.to_string(), address, text_length: 0x40 }
}

fn line(number: usize, address: u64) -> Line {
    Line { file: "prog.c".to_string(), number, address }
}

fn nested_symbols() -> SymbolTable {
    SymbolTable::new(
        vec![function("main", MAIN), function("helper", HELPER), function("leaf", LEAF)],
        vec![
            line(10, LEAF),
            line(11, LEAF + 1),
            line(20, HELPER),
            line(21, HELPER + 1),
            line(22, HELPER + 2),
            line(30, MAIN),
            line(31, MAIN + 1),
            line(32, MAIN + 2),
        ],
    )
}

fn session() -> Debugger<Sim> {
    Debugger::new("prog", nested_program(), nested_symbols())
}

fn frame(function: &str, line: usize) -> Frame {
    Frame { function: function.to_string(), file: "prog.c".to_string(), line }
}

fn run(debugger: &mut Debugger<Sim>) -> Vec<Report> {
    let outcome = debugger.run(DebuggerCommand::Run(vec![]));
    assert_eq!(outcome.next, Next::Prompt);
    outcome.reports
}

fn command(debugger: &mut Debugger<Sim>, command: DebuggerCommand) -> Vec<Report> {
    debugger.run(command).reports
}

fn set_break(debugger: &mut Debugger<Sim>, place: &str) -> Vec<Report> {
    command(debugger, DebuggerCommand::Break(place.to_string()))
}

#[test]
fn continue_without_a_process_reports_it_and_changes_nothing() {
    let mut debugger = session();
    let outcome = debugger.run(DebuggerCommand::Continue);
    assert_eq!(outcome.reports, vec![Report::NoProcess]);
    assert_eq!(outcome.next, Next::Prompt);
    assert_eq!(debugger.inferior(), None);
    assert!(debugger.tracer().calls.is_empty());
    assert_eq!(debugger.breakpoints().len(), 0);
}

#[test]
fn backtrace_without_a_process_reports_it() {
    let mut debugger = session();
    assert_eq!(command(&mut debugger, DebuggerCommand::Backtrace), vec![Report::NoProcess]);
    assert!(debugger.tracer().calls.is_empty());
}

#[test]
fn a_program_without_breakpoints_runs_to_its_exit() {
    let mut debugger = session();
    assert_eq!(run(&mut debugger), vec![Report::Exited { code: 7 }]);
    assert_eq!(debugger.inferior(), None);
    assert_eq!(
        debugger.tracer().calls,
        vec![
            Call::Launch("prog".to_string(), vec![]),
            Call::Wait(true),
            Call::GetRegs,
            Call::Resume,
            Call::Wait(false),
        ]
    );
}

#[test]
fn arguments_are_handed_to_the_program() {
    let mut debugger = session();
    let args = vec!["-v".to_string(), "input".to_string()];
    debugger.run(DebuggerCommand::Run(args.clone()));
    assert_eq!(debugger.tracer().calls[0], Call::Launch("prog".to_string(), args));
}

#[test]
fn a_deadly_signal_is_reported_and_ends_the_process() {
    let mut sim = nested_program();
    sim.ending = Ending::Signal(SIGSEGV);
    let mut debugger = Debugger::new("prog", sim, nested_symbols());
    assert_eq!(run(&mut debugger), vec![Report::Signaled { signal: SIGSEGV }]);
    assert_eq!(debugger.inferior(), None);
}

#[test]
fn a_failed_start_is_reported_and_leaves_no_process() {
    let mut sim = nested_program();
    sim.next_pid = None;
    let mut debugger = Debugger::new("prog", sim, nested_symbols());
    assert_eq!(run(&mut debugger), vec![Report::StartFailed]);
    assert_eq!(debugger.inferior(), None);
    assert_eq!(debugger.tracer().calls, vec![Call::Launch("prog".to_string(), vec![])]);
}

#[test]
fn a_pending_breakpoint_is_installed_when_the_process_starts() {
    let mut debugger = session();
    assert_eq!(
        set_break(&mut debugger, "*0x401041"),
        vec![Report::BreakpointSet { index: 0, addr: HELPER + 1 }]
    );
    assert_eq!(
        debugger.breakpoints().get(0),
        Some(BreakPoint { addr: HELPER + 1, origin_byte: 0, installed: false })
    );
    assert!(debugger.tracer().calls.is_empty());
    let reports = run(&mut debugger);
    assert_eq!(
        reports,
        vec![Report::Stopped { signal: SIGTRAP, rip: HELPER + 1, frame: Some(frame("helper", 21)) }]
    );
    assert_eq!(debugger.tracer().byte(HELPER + 1), TRAP);
    assert_eq!(debugger.tracer().byte(HELPER), 0x90);
    assert_eq!(debugger.tracer().byte(HELPER + 2), 0x90);
    assert_eq!(
        debugger.breakpoints().get(0),
        Some(BreakPoint { addr: HELPER + 1, origin_byte: 0x90, installed: true })
    );
    // the trap was written before the process was first let run
    let calls = &debugger.tracer().calls;
    let poke = calls.iter().position(|c| matches!(c, Call::Poke(_, _))).unwrap();
    let resume = calls.iter().position(|c| *c == Call::Resume).unwrap();
    assert!(poke < resume);
    assert_eq!(calls[poke], Call::Poke(HELPER, 0x9090_9090_9090_cc90));
}

#[test]
fn the_original_byte_is_back_for_the_step_and_the_trap_after_it() {
    let mut debugger = session();
    set_break(&mut debugger, "*0x401041");
    run(&mut debugger);
    let sim = debugger.tracer();
    // the instruction at the breakpoint was met twice: as the trap, then as itself
    let at_breakpoint: Vec<u8> =
        sim.executed.iter().filter(|(addr, _)| *addr == HELPER + 1).map(|(_, b)| *b).collect();
    assert_eq!(at_breakpoint, vec![TRAP, 0x90]);
    // and the trap stands again now that the process is past it
    assert_eq!(sim.byte(HELPER + 1), TRAP);
    assert_eq!(
        sim.calls[5..],
        [
            Call::Resume,
            Call::Wait(false),
            Call::GetRegs,
            Call::Peek(HELPER),
            Call::Poke(HELPER, 0x9090_9090_9090_9090),
            Call::GetRegs,
            Call::SetRegs(Registers { rip: HELPER + 1, rsp: 0, rbp: STACK + 0x80 }),
            Call::Step,
            Call::Wait(false),
            Call::GetRegs,
            Call::Peek(HELPER),
            Call::Poke(HELPER, 0x9090_9090_9090_cc90),
        ]
    );
}

#[test]
fn from_a_breakpoint_at_the_entry_to_the_exit() {
    let mut debugger = session();
    assert_eq!(
        set_break(&mut debugger, "main"),
        vec![Report::BreakpointSet { index: 0, addr: MAIN }]
    );
    assert_eq!(
        run(&mut debugger),
        vec![Report::Stopped { signal: SIGTRAP, rip: MAIN, frame: Some(frame("main", 30)) }]
    );
    assert!(debugger.inferior().is_some());
    let outcome = debugger.run(DebuggerCommand::Continue);
    assert_eq!(outcome.reports, vec![Report::Exited { code: 7 }]);
    assert_eq!(outcome.next, Next::Prompt);
    assert_eq!(debugger.inferior(), None);
    assert_eq!(
        debugger.breakpoints().get(0),
        Some(BreakPoint { addr: MAIN, origin_byte: 0x90, installed: false })
    );
}

#[test]
fn continue_stops_at_the_next_breakpoint() {
    let mut debugger = session();
    set_break(&mut debugger, "main");
    set_break(&mut debugger, "leaf");
    run(&mut debugger);
    assert_eq!(
        command(&mut debugger, DebuggerCommand::Continue),
        vec![Report::Stopped { signal: SIGTRAP, rip: LEAF, frame: Some(frame("leaf", 10)) }]
    );
    assert_eq!(
        command(&mut debugger, DebuggerCommand::Continue),
        vec![Report::Exited { code: 7 }]
    );
}

#[test]
fn a_breakpoint_is_installed_anew_in_every_process() {
    let mut debugger = session();
    set_break(&mut debugger, "helper");
    for _ in 0..3 {
        assert_eq!(
            run(&mut debugger),
            vec![Report::Stopped { signal: SIGTRAP, rip: HELPER, frame: Some(frame("helper", 20)) }]
        );
        assert_eq!(
            command(&mut debugger, DebuggerCommand::Continue),
            vec![Report::Exited { code: 7 }]
        );
        // the next process starts from clean memory
        let mut fresh = nested_program();
        fresh.next_pid = Some(101);
        *debugger.tracer_mut() = fresh;
    }
}

#[test]
fn a_second_breakpoint_at_one_address_is_reported_and_not_entered() {
    let mut debugger = session();
    assert_eq!(
        set_break(&mut debugger, "*0x401000"),
        vec![Report::BreakpointSet { index: 0, addr: MAIN }]
    );
    assert_eq!(set_break(&mut debugger, "*401000"), vec![Report::AlreadySet { addr: MAIN }]);
    assert_eq!(set_break(&mut debugger, "main"), vec![Report::AlreadySet { addr: MAIN }]);
    assert_eq!(debugger.breakpoints().len(), 1);
    assert_eq!(
        set_break(&mut debugger, "helper"),
        vec![Report::BreakpointSet { index: 1, addr: HELPER }]
    );
    assert_eq!(debugger.breakpoints().len(), 2);
}

#[test]
fn a_breakpoint_set_while_stopped_is_installed_at_once() {
    let mut debugger = session();
    set_break(&mut debugger, "main");
    run(&mut debugger);
    assert_eq!(
        set_break(&mut debugger, "21"),
        vec![Report::BreakpointSet { index: 1, addr: HELPER + 1 }]
    );
    assert_eq!(debugger.tracer().byte(HELPER + 1), TRAP);
    assert_eq!(
        debugger.breakpoints().get(1),
        Some(BreakPoint { addr: HELPER + 1, origin_byte: 0x90, installed: true })
    );
    assert_eq!(set_break(&mut debugger, "21"), vec![Report::AlreadySet { addr: HELPER + 1 }]);
    assert_eq!(
        command(&mut debugger, DebuggerCommand::Continue),
        vec![Report::Stopped { signal: SIGTRAP, rip: HELPER + 1, frame: Some(frame("helper", 21)) }]
    );
}

#[test]
fn a_breakpoint_that_cannot_be_written_is_reported_and_not_entered() {
    let mut debugger = session();
    set_break(&mut debugger, "main");
    run(&mut debugger);
    assert_eq!(
        set_break(&mut debugger, "*0x500000"),
        vec![Report::InstallFailed { addr: 0x500000 }]
    );
    assert_eq!(debugger.breakpoints().len(), 1);
}

#[test]
fn a_pending_breakpoint_that_cannot_be_written_stays_pending() {
    let mut debugger = session();
    set_break(&mut debugger, "*0x500000");
    set_break(&mut debugger, "leaf");
    assert_eq!(
        run(&mut debugger),
        vec![
            Report::WriteFailed { addr: 0x500000 },
            Report::Stopped { signal: SIGTRAP, rip: LEAF, frame: Some(frame("leaf", 10)) },
        ]
    );
    assert_eq!(
        debugger.breakpoints().get(0),
        Some(BreakPoint { addr: 0x500000, origin_byte: 0, installed: false })
    );
    assert!(debugger.breakpoints().get(1).unwrap().installed);
}

#[test]
fn places_that_name_no_address_are_reported() {
    let mut debugger = session();
    assert_eq!(set_break(&mut debugger, "*zz"), vec![Report::BadAddress]);
    assert_eq!(set_break(&mut debugger, "*"), vec![Report::BadAddress]);
    assert_eq!(set_break(&mut debugger, "99"), vec![Report::NoSuchLine]);
    assert_eq!(set_break(&mut debugger, "nowhere"), vec![Report::NoSuchFunction]);
    assert_eq!(debugger.breakpoints().len(), 0);
}

#[test]
fn a_line_without_code_takes_the_next_line_with_code() {
    let mut debugger = session();
    assert_eq!(
        set_break(&mut debugger, "12"),
        vec![Report::BreakpointSet { index: 0, addr: HELPER }]
    );
}

#[test]
fn backtrace_names_the_frames_from_the_innermost_to_main() {
    let mut debugger = session();
    set_break(&mut debugger, "leaf");
    run(&mut debugger);
    assert_eq!(
        command(&mut debugger, DebuggerCommand::Backtrace),
        vec![
            Report::Frame(frame("leaf", 11)),
            Report::Frame(frame("helper", 22)),
            Report::Frame(frame("main", 32)),
        ]
    );
}

#[test]
fn backtrace_fails_when_the_stack_cannot_be_read() {
    let mut sim = nested_program();
    sim.memory.remove(&(STACK + 0x80));
    let mut debugger = Debugger::new("prog", sim, nested_symbols());
    set_break(&mut debugger, "leaf");
    run(&mut debugger);
    assert_eq!(command(&mut debugger, DebuggerCommand::Backtrace), vec![Report::BacktraceFailed]);
    assert!(debugger.inferior().is_some());
}

#[test]
fn backtrace_ends_where_the_chain_of_base_pointers_turns_back() {
    let mut sim = nested_program();
    sim.set_word(STACK + 0x40, STACK + 0x40);
    let mut debugger = Debugger::new("prog", sim, nested_symbols());
    set_break(&mut debugger, "leaf");
    run(&mut debugger);
    assert_eq!(
        command(&mut debugger, DebuggerCommand::Backtrace),
        vec![Report::Frame(frame("leaf", 11))]
    );
}

#[test]
fn run_kills_the_process_that_is_there() {
    let mut debugger = session();
    set_break(&mut debugger, "main");
    run(&mut debugger);
    let before = debugger.tracer().calls.len();
    let reports = run(&mut debugger);
    assert_eq!(reports[0], Report::Killed { pid: 100 });
    assert_eq!(debugger.tracer().calls[before], Call::Kill);
    assert_eq!(debugger.tracer().calls[before + 1], Call::Launch("prog".to_string(), vec![]));
}

#[test]
fn quit_kills_the_process_and_ends_the_session() {
    let mut debugger = session();
    set_break(&mut debugger, "main");
    run(&mut debugger);
    let outcome = debugger.run(DebuggerCommand::Quit);
    assert_eq!(outcome.reports, vec![Report::Killed { pid: 100 }]);
    assert_eq!(outcome.next, Next::Exit);
    assert_eq!(debugger.inferior(), None);
    assert!(!debugger.breakpoints().get(0).unwrap().installed);
}

#[test]
fn quit_without_a_process_has_nothing_to_report() {
    let mut debugger = session();
    let outcome = debugger.run(DebuggerCommand::Quit);
    assert_eq!(outcome.reports, vec![]);
    assert_eq!(outcome.next, Next::Exit);
}

#[test]
fn a_process_lost_during_the_wait_is_fatal() {
    let mut debugger = session();
    set_break(&mut debugger, "main");
    run(&mut debugger);
    debugger.tracer_mut().fail_wait = true;
    let outcome = debugger.run(DebuggerCommand::Continue);
    assert_eq!(outcome.reports, vec![Report::Lost { error: TraceError::Os(ESRCH) }]);
    assert_eq!(outcome.next, Next::Abort);
    assert_eq!(debugger.inferior(), None);
}

#[test]
fn write_byte_returns_the_old_byte_and_keeps_the_rest_of_the_word() {
    let mut sim = nested_program();
    sim.alive = true;
    sim.set_word(0x1000, 0x8877_6655_4433_2211);
    let inferior = Inferior { pid: 100 };
    assert_eq!(inferior.write_byte(&mut sim, 0x1003, 0xcc), Ok(0x44));
    assert_eq!(sim.memory[&0x1000], 0x8877_6655_cc33_2211);
    assert_eq!(inferior.write_byte(&mut sim, 0x1003, 0x44), Ok(0xcc));
    assert_eq!(sim.memory[&0x1000], 0x8877_6655_4433_2211);
    assert_eq!(inferior.write_byte(&mut sim, 0x1007, 0x00), Ok(0x88));
    assert_eq!(sim.memory[&0x1000], 0x0077_6655_4433_2211);
    assert_eq!(inferior.write_byte(&mut sim, 0x1000, 0xff), Ok(0x11));
    assert_eq!(sim.memory[&0x1000], 0x0077_6655_4433_22ff);
    assert_eq!(sim.calls[..2], [Call::Peek(0x1000), Call::Poke(0x1000, 0x8877_6655_cc33_2211)]);
}

#[test]
fn write_byte_writes_nothing_when_the_word_cannot_be_read() {
    let mut sim = nested_program();
    sim.alive = true;
    let inferior = Inferior { pid: 100 };
    assert_eq!(inferior.write_byte(&mut sim, 0x2001, 0xcc), Err(TraceError::Os(EIO)));
    assert_eq!(sim.calls, vec![Call::Peek(0x2000)]);
}

#[test]
fn wait_reads_the_instruction_pointer_of_a_stopped_process() {
    let mut sim = nested_program();
    sim.alive = true;
    sim.regs.rip = 0x1234;
    sim.pending = Some(Change::Stopped(SIGTRAP));
    let inferior = Inferior { pid: 100 };
    assert_eq!(inferior.wait(&mut sim, false), Ok(Status::Stopped(SIGTRAP, 0x1234)));
    sim.pending = Some(Change::Other);
    assert_eq!(inferior.wait(&mut sim, false), Err(TraceError::Unexpected));
    sim.pending = Some(Change::Exited(3));
    assert_eq!(inferior.wait(&mut sim, false), Ok(Status::Exited(3)));
}

#[test]
fn a_process_that_is_not_seen_to_stop_is_not_traced() {
    let mut sim = nested_program();
    sim.fail_wait = true;
    assert_eq!(Inferior::new(&mut sim, "prog", &vec![]), None);
    let mut sim = nested_program();
    let started = Inferior::new(&mut sim, "prog", &vec![]);
    assert_eq!(started.map(|p| p.pid()), Some(100));
}

#[test]
fn a_kill_that_fails_is_reported_and_the_process_is_given_up() {
    let mut debugger = session();
    set_break(&mut debugger, "main");
    run(&mut debugger);
    debugger.tracer_mut().alive = false;
    let outcome = debugger.run(DebuggerCommand::Quit);
    assert_eq!(outcome.reports, vec![Report::KillFailed]);
    assert_eq!(outcome.next, Next::Exit);
    assert_eq!(debugger.inferior(), None);
}

#[test]
fn a_state_that_a_traced_process_is_never_in_is_fatal() {
    let mut debugger = session();
    set_break(&mut debugger, "main");
    run(&mut debugger);
    debugger.tracer_mut().odd_wait = Some(Change::Other);
    let outcome = debugger.run(DebuggerCommand::Continue);
    assert_eq!(outcome.reports, vec![Report::Lost { error: TraceError::Unexpected }]);
    assert_eq!(outcome.next, Next::Abort);
}

#[test]
fn a_stop_by_a_signal_is_reported_where_it_happened() {
    let mut sim = nested_program();
    sim.faults.insert(HELPER + 1, SIGSEGV);
    let mut debugger = Debugger::new("prog", sim, nested_symbols());
    assert_eq!(
        run(&mut debugger),
        vec![Report::Stopped { signal: SIGSEGV, rip: HELPER + 1, frame: Some(frame("helper", 21)) }]
    );
    // nothing was read or written for it
    assert_eq!(
        debugger.tracer().calls[3..],
        [Call::Resume, Call::Wait(false), Call::GetRegs]
    );
    assert_eq!(
        command(&mut debugger, DebuggerCommand::Continue),
        vec![Report::Exited { code: 7 }]
    );
}

#[test]
fn a_stop_outside_the_symbol_table_has_no_place() {
    let mut sim = nested_program();
    sim.path.push(Insn { addr: 0x500000, rbp: STACK });
    sim.set_word(0x500000, 0);
    sim.faults.insert(0x500000, SIGSEGV);
    let mut debugger = Debugger::new("prog", sim, nested_symbols());
    assert_eq!(
        run(&mut debugger),
        vec![Report::Stopped { signal: SIGSEGV, rip: 0x500000, frame: None }]
    );
    assert_eq!(command(&mut debugger, DebuggerCommand::Backtrace), vec![]);
}

#[test]
fn a_stop_behind_a_pending_breakpoint_is_no_trap() {
    let mut sim = nested_program();
    sim.path.insert(2, Insn { addr: 0x401100, rbp: STACK });
    sim.path.insert(3, Insn { addr: 0x401101, rbp: STACK });
    sim.set_word(0x401100, 0x9090_9090_9090_9090);
    sim.locked.push(0x401100);
    sim.faults.insert(0x401101, SIGSEGV);
    let mut debugger = Debugger::new("prog", sim, nested_symbols());
    set_break(&mut debugger, "*0x401100");
    assert_eq!(
        run(&mut debugger),
        vec![
            Report::WriteFailed { addr: 0x401100 },
            Report::Stopped { signal: SIGSEGV, rip: 0x401101, frame: None },
        ]
    );
    assert_eq!(debugger.tracer().calls.last(), Some(&Call::GetRegs));
    assert_eq!(
        debugger.breakpoints().get(0),
        Some(BreakPoint { addr: 0x401100, origin_byte: 0, installed: false })
    );
}

#[test]
fn a_process_that_ends_in_the_step_over_a_trap_is_reported_as_ended() {
    let mut debugger = session();
    set_break(&mut debugger, "*0x401002");
    let before_run = debugger.tracer().calls.len();
    assert_eq!(run(&mut debugger), vec![Report::Exited { code: 7 }]);
    assert_eq!(debugger.inferior(), None);
    let calls = &debugger.tracer().calls[before_run..];
    assert_eq!(calls.last(), Some(&Call::Wait(false)));
    // the trap was written once, at the start, and not again after the step
    let pokes: Vec<&Call> = calls.iter().filter(|c| matches!(c, Call::Poke(_, _))).collect();
    assert_eq!(
        pokes,
        vec![
            &Call::Poke(MAIN, 0x9090_9090_90cc_9090),
            &Call::Poke(MAIN, 0x9090_9090_9090_9090),
        ]
    );
}

#[test]
fn two_breakpoints_in_one_word_keep_each_other() {
    let mut debugger = session();
    set_break(&mut debugger, "*0x401040");
    set_break(&mut debugger, "*0x401041");
    assert_eq!(
        run(&mut debugger),
        vec![Report::Stopped { signal: SIGTRAP, rip: HELPER, frame: Some(frame("helper", 20)) }]
    );
    assert_eq!(debugger.tracer().memory[&HELPER], 0x9090_9090_9090_cccc);
    assert_eq!(
        command(&mut debugger, DebuggerCommand::Continue),
        vec![Report::Stopped { signal: SIGTRAP, rip: HELPER + 1, frame: Some(frame("helper", 21)) }]
    );
    assert_eq!(debugger.tracer().memory[&HELPER], 0x9090_9090_9090_cccc);
    assert_eq!(
        debugger.breakpoints().get(1),
        Some(BreakPoint { addr: HELPER + 1, origin_byte: 0x90, installed: true })
    );
    assert_eq!(
        command(&mut debugger, DebuggerCommand::Continue),
        vec![Report::Exited { code: 7 }]
    );
}

#[test]
fn a_place_is_located_without_a_change_to_the_session() {
    let debugger = session();
    assert_eq!(debugger.locate("*0x10"), Ok(0x10));
    assert_eq!(debugger.locate("*10"), Ok(0x10));
    assert_eq!(debugger.locate("30"), Ok(MAIN));
    assert_eq!(debugger.locate("31"), Ok(MAIN + 1));
    assert_eq!(debugger.locate("+31"), Err(Report::NoSuchFunction));
    assert_eq!(debugger.locate("*+10"), Err(Report::BadAddress));
    assert_eq!(debugger.locate("leaf"), Ok(LEAF));
    assert_eq!(debugger.locate("*"), Err(Report::BadAddress));
    assert_eq!(debugger.locate("33"), Err(Report::NoSuchLine));
    assert_eq!(debugger.locate(""), Err(Report::NoSuchFunction));
    assert_eq!(debugger.locate("0x401000"), Err(Report::NoSuchFunction));
}

/// What the user sees for a line typed at the prompt.
fn typed(debugger: &mut Debugger<Sim>, line: &str) -> (Vec<String>, Next) {
    let words: Vec<String> = line.split_whitespace().map(String::from).collect();
    match DebuggerCommand::from_tokens(&words) {
        None => (vec!["Unrecognized command.".to_string()], Next::Prompt),
        Some(command) => {
            let outcome = debugger.run(command);
            (outcome.reports.iter().map(|r| r.message()).collect(), outcome.next)
        }
    }
}

#[test]
fn a_session_from_the_first_line_to_the_last() {
    let mut debugger = session();
    assert_eq!(
        typed(&mut debugger, "continue"),
        (vec!["no child start".to_string()], Next::Prompt)
    );
    assert_eq!(
        typed(&mut debugger, "break main"),
        (vec!["set breakpoint 0 at 0x401000".to_string()], Next::Prompt)
    );
    assert_eq!(
        typed(&mut debugger, "break *0x401000"),
        (vec!["0x401000 has already been set".to_string()], Next::Prompt)
    );
    assert_eq!(
        typed(&mut debugger, "break 10"),
        (vec!["set breakpoint 1 at 0x401080".to_string()], Next::Prompt)
    );
    assert_eq!(
        typed(&mut debugger, "step"),
        (vec!["Unrecognized command.".to_string()], Next::Prompt)
    );
    assert_eq!(
        typed(&mut debugger, "run first second"),
        (vec!["child stopped (signal: SIGTRAP)\nmain (prog.c:30)".to_string()], Next::Prompt)
    );
    assert_eq!(
        typed(&mut debugger, "backtrace"),
        (vec!["main (prog.c:31)".to_string()], Next::Prompt)
    );
    assert_eq!(
        typed(&mut debugger, "continue"),
        (vec!["child stopped (signal: SIGTRAP)\nleaf (prog.c:10)".to_string()], Next::Prompt)
    );
    assert_eq!(
        typed(&mut debugger, "backtrace"),
        (
            vec![
                "leaf (prog.c:11)".to_string(),
                "helper (prog.c:22)".to_string(),
                "main (prog.c:32)".to_string(),
            ],
            Next::Prompt
        )
    );
    assert_eq!(
        typed(&mut debugger, "continue"),
        (vec!["child exited (status 7)".to_string()], Next::Prompt)
    );
    assert_eq!(
        typed(&mut debugger, "backtrace"),
        (vec!["no child start".to_string()], Next::Prompt)
    );
    assert_eq!(typed(&mut debugger, "quit"), (vec![], Next::Exit));
}

#[test]
fn backtrace_walks_through_functions_whose_names_hold_the_word_main() {
    let symbols = SymbolTable::new(
        vec![function("main", MAIN), function("main_loop", HELPER), function("domain_init", LEAF)],
        vec![
            line(10, LEAF),
            line(11, LEAF + 1),
            line(20, HELPER),
            line(21, HELPER + 1),
            line(22, HELPER + 2),
            line(30, MAIN),
            line(31, MAIN + 1),
            line(32, MAIN + 2),
        ],
    );
    let mut debugger = Debugger::new("prog", nested_program(), symbols);
    set_break(&mut debugger, "domain_init");
    run(&mut debugger);
    let before = debugger.tracer().calls.len();
    assert_eq!(
        command(&mut debugger, DebuggerCommand::Backtrace),
        vec![
            Report::Frame(frame("domain_init", 11)),
            Report::Frame(frame("main_loop", 22)),
            Report::Frame(frame("main", 32)),
        ]
    );
    // two words are read for each call, and none above the entry function
    assert_eq!(
        debugger.tracer().calls[before..],
        [
            Call::GetRegs,
            Call::Peek(STACK + 0x48),
            Call::Peek(STACK + 0x40),
            Call::Peek(STACK + 0x88),
            Call::Peek(STACK + 0x80),
        ]
    );
}

#[test]
fn a_line_number_is_digits_and_nothing_else() {
    let mut debugger = session();
    assert_eq!(set_break(&mut debugger, "+30"), vec![Report::NoSuchFunction]);
    assert_eq!(
        set_break(&mut debugger, "030"),
        vec![Report::BreakpointSet { index: 0, addr: MAIN }]
    );
    assert_eq!(set_break(&mut debugger, "*+401040"), vec![Report::BadAddress]);
    assert_eq!(debugger.breakpoints().len(), 1);
}
