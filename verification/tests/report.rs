use deet::report::Report;
use deet::symbols::Frame;
use deet::trace::TraceError;

fn main_frame() -> Frame {
    Frame { function: "main".to_string(), file: "prog.c".to_string(), line: 30 }
}

#[test]
fn signals_are_shown_by_name() {
    assert_eq!(
        Report::Stopped { signal: 5, rip: 0x401000, frame: None }.message(),
        "child stopped (signal: SIGTRAP)"
    );
    assert_eq!(Report::Signaled { signal: 11 }.message(), "child signaled (sigcode: SIGSEGV)");
    assert_eq!(Report::Signaled { signal: 9 }.message(), "child signaled (sigcode: SIGKILL)");
}

#[test]
fn a_number_that_is_no_signal_is_shown_as_a_number() {
    assert_eq!(Report::Signaled { signal: 0 }.message(), "child signaled (sigcode: 0)");
    assert_eq!(Report::Signaled { signal: 1000 }.message(), "child signaled (sigcode: 1000)");
    assert_eq!(Report::Signaled { signal: -4 }.message(), "child signaled (sigcode: -4)");
}

#[test]
fn a_stop_at_a_known_place_names_the_place_on_a_second_line() {
    assert_eq!(
        Report::Stopped { signal: 5, rip: 0x401000, frame: Some(main_frame()) }.message(),
        "child stopped (signal: SIGTRAP)\nmain (prog.c:30)"
    );
}

#[test]
fn the_name_of_the_signal_can_be_given() {
    let report = Report::Stopped { signal: 5, rip: 0, frame: None };
    assert_eq!(
        report.message_with(&Some("a trap".to_string())),
        "child stopped (signal: a trap)"
    );
    assert_eq!(report.message_with(&None), "child stopped (signal: 5)");
    assert_eq!(Report::NoProcess.message_with(&Some("unused".to_string())), "no child start");
}

#[test]
fn every_report_has_its_text() {
    assert_eq!(Report::Killed { pid: 4242 }.message(), "killed inferior (pid: 4242)");
    assert_eq!(Report::KillFailed.message(), "failed to kill child");
    assert_eq!(Report::StartFailed.message(), "Error starting subprocess");
    assert_eq!(Report::NoProcess.message(), "no child start");
    assert_eq!(Report::Exited { code: 0 }.message(), "child exited (status 0)");
    assert_eq!(Report::Exited { code: -1 }.message(), "child exited (status -1)");
    assert_eq!(
        Report::Lost { error: TraceError::Os(3) }.message(),
        "Error wakeup subprocess"
    );
    assert_eq!(Report::Frame(main_frame()).message(), "main (prog.c:30)");
    assert_eq!(Report::BacktraceFailed.message(), "failed to backtrace");
    assert_eq!(Report::BadAddress.message(), "parse addr error");
    assert_eq!(Report::NoSuchLine.message(), "get addr for line error");
    assert_eq!(Report::NoSuchFunction.message(), "get addr for function");
    assert_eq!(
        Report::BreakpointSet { index: 0, addr: 0x401000 }.message(),
        "set breakpoint 0 at 0x401000"
    );
    assert_eq!(
        Report::BreakpointSet { index: 12, addr: 0 }.message(),
        "set breakpoint 12 at 0x0"
    );
    assert_eq!(Report::AlreadySet { addr: 0x40 }.message(), "0x40 has already been set");
    assert_eq!(
        Report::InstallFailed { addr: 0xdead }.message(),
        "set breakpoint at: 0xdead error"
    );
    assert_eq!(Report::WriteFailed { addr: 0xdead }.message(), "write byte: 0xcc error");
}
