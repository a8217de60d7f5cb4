//! The traced process.
//!
//! An `Inferior` is the id of one process under trace.  Its methods make
//! requests of a `Tracer`; each contract reads the stretch of the tracer's
//! record that the call added, and says what the call returned for it.

use crate::breakpoints::{is_set, place, BreakPoint, BreakpointTable, TRAP};
use crate::symbols::{lemma_frame_named, Frame, SymbolTable};
use crate::trace::{
    arg_views, extends, killed, launched, peeked, poked, registers_read, registers_set, resumed,
    stepped, waited, Change, Event, Registers, Run, TraceError, Tracer,
};
use crate::word::{
    align_addr_to_word, byte_at, byte_offset, get_byte, set_byte, with_byte, word_base,
};
use vstd::prelude::*;

verus! {

/// What became of the traced process after it was let run.
#[derive(Clone, Copy, PartialEq, Eq, Debug, Structural)]
pub enum Status {
    /// A signal stopped it; the second field is the instruction pointer.
    Stopped(i32, u64),
    /// It exited with this code.
    Exited(i32),
    /// This signal killed it.
    Signaled(i32),
}

/// One process under trace.
#[derive(Clone, Copy, PartialEq, Eq, Debug, Structural)]
pub struct Inferior {
    pub pid: i32,
}

/// Patching a byte: the word that holds `addr` is read, and written back with
/// `val` in the place of the byte at `addr`.  The result is the byte that was
/// there.  A failed read ends the operation before anything is written.
pub open spec fn patch_run(h: Seq<Event>, at: int, pid: i32, addr: u64, val: u8) -> Option<
    Run<Result<u8, TraceError>>,
> {
    let base = word_base(addr);
    let k = byte_offset(addr);
    match peeked(h, at, pid, base) {
        None => None,
        Some(Err(e)) => Some(Run { result: Err(e), end: at + 1 }),
        Some(Ok(word)) => match poked(h, at + 1, pid, base, with_byte(word, k, val)) {
            None => None,
            Some(Err(e)) => Some(Run { result: Err(e), end: at + 2 }),
            Some(Ok(())) => Some(Run { result: Ok(byte_at(word, k)), end: at + 2 }),
        },
    }
}

/// Waiting: the process is waited for, and where it stopped, its registers are
/// read for the instruction pointer.
pub open spec fn wait_run(h: Seq<Event>, at: int, pid: i32, stops: bool) -> Option<
    Run<Result<Status, TraceError>>,
> {
    match waited(h, at, pid, stops) {
        None => None,
        Some(Err(e)) => Some(Run { result: Err(e), end: at + 1 }),
        Some(Ok(Change::Exited(code))) => Some(
            Run { result: Ok(Status::Exited(code)), end: at + 1 },
        ),
        Some(Ok(Change::Signaled(signal))) => Some(
            Run { result: Ok(Status::Signaled(signal)), end: at + 1 },
        ),
        Some(Ok(Change::Other)) => Some(Run { result: Err(TraceError::Unexpected), end: at + 1 }),
        Some(Ok(Change::Stopped(signal))) => match registers_read(h, at + 1, pid) {
            None => None,
            Some(Err(e)) => Some(Run { result: Err(e), end: at + 2 }),
            Some(Ok(regs)) => Some(
                Run { result: Ok(Status::Stopped(signal, regs.rip)), end: at + 2 },
            ),
        },
    }
}

/// Starting: the program is launched and waited for; it is under trace if that
/// wait sees it stopped.
pub open spec fn start_run(
    h: Seq<Event>,
    at: int,
    target: Seq<char>,
    args: Seq<Seq<char>>,
) -> Option<Run<Option<Inferior>>> {
    match launched(h, at, target, args) {
        None => None,
        Some(None) => Some(Run { result: None, end: at + 1 }),
        Some(Some(pid)) => match wait_run(h, at + 1, pid, true) {
            None => None,
            Some(w) => Some(
                Run {
                    result: if w.result matches Ok(Status::Stopped(_, _)) {
                        Some(Inferior { pid })
                    } else {
                        None
                    },
                    end: w.end,
                },
            ),
        },
    }
}

/// The installed breakpoint whose trap was just executed, if the instruction
/// pointer `rip` stands one byte behind one.
pub open spec fn trap_site(points: Seq<BreakPoint>, rip: u64) -> Option<BreakPoint> {
    if rip >= 1 && is_set(points, (rip - 1) as u64) && points[place(
        points,
        (rip - 1) as u64,
    )].installed {
        Some(points[place(points, (rip - 1) as u64)])
    } else {
        None
    }
}

/// Getting over a trap at `bp` that the process ran into with `signal`:
/// the original byte is put back, the instruction pointer is set back to the
/// breakpoint, the process runs for that one instruction, and the trap is
/// written again.  The stop is then reported at the breakpoint's address.  If
/// the process does not survive the one instruction, that is the result, and
/// nothing is written again.  The first request to fail ends the operation.
pub open spec fn recover_run(
    h: Seq<Event>,
    at: int,
    pid: i32,
    bp: BreakPoint,
    signal: i32,
) -> Option<Run<Result<Status, TraceError>>> {
    match patch_run(h, at, pid, bp.addr, bp.origin_byte) {
        None => None,
        Some(Run { result: Err(e), end }) => Some(Run { result: Err(e), end }),
        Some(Run { result: Ok(_), end: at1 }) => match registers_read(h, at1, pid) {
            None => None,
            Some(Err(e)) => Some(Run { result: Err(e), end: at1 + 1 }),
            Some(Ok(regs)) => match registers_set(
                h,
                at1 + 1,
                pid,
                Registers { rip: bp.addr, rsp: regs.rsp, rbp: regs.rbp },
            ) {
                None => None,
                Some(Err(e)) => Some(Run { result: Err(e), end: at1 + 2 }),
                Some(Ok(())) => match stepped(h, at1 + 2, pid) {
                    None => None,
                    Some(Err(e)) => Some(Run { result: Err(e), end: at1 + 3 }),
                    Some(Ok(())) => match wait_run(h, at1 + 3, pid, false) {
                        None => None,
                        Some(Run { result: Err(e), end }) => Some(Run { result: Err(e), end }),
                        Some(Run { result: Ok(Status::Exited(code)), end }) => Some(
                            Run { result: Ok(Status::Exited(code)), end },
                        ),
                        Some(Run { result: Ok(Status::Signaled(s)), end }) => Some(
                            Run { result: Ok(Status::Signaled(s)), end },
                        ),
                        Some(
                            Run { result: Ok(Status::Stopped(_, _)), end: at2 },
                        ) => match patch_run(h, at2, pid, bp.addr, TRAP) {
                            None => None,
                            Some(Run { result: Err(e), end }) => Some(Run { result: Err(e), end }),
                            Some(Run { result: Ok(_), end }) => Some(
                                Run { result: Ok(Status::Stopped(signal, bp.addr)), end },
                            ),
                        },
                    },
                },
            },
        },
    }
}

/// Letting the process run until it changes state.  Where it stops one byte
/// behind an installed breakpoint, the trap is got over before the stop is
/// reported, and reported at the breakpoint's address.
pub open spec fn resume_run(h: Seq<Event>, at: int, pid: i32, points: Seq<BreakPoint>) -> Option<
    Run<Result<Status, TraceError>>,
> {
    match resumed(h, at, pid) {
        None => None,
        Some(Err(e)) => Some(Run { result: Err(e), end: at + 1 }),
        Some(Ok(())) => match wait_run(h, at + 1, pid, false) {
            None => None,
            Some(Run { result: Ok(Status::Stopped(signal, rip)), end }) => match trap_site(
                points,
                rip,
            ) {
                None => Some(Run { result: Ok(Status::Stopped(signal, rip)), end }),
                Some(bp) => recover_run(h, end, pid, bp, signal),
            },
            Some(w) => Some(w),
        },
    }
}

/// Killing the process.
pub open spec fn kill_run(h: Seq<Event>, at: int, pid: i32) -> Option<
    Run<Result<(), TraceError>>,
> {
    match killed(h, at, pid) {
        None => None,
        Some(reply) => Some(Run { result: reply, end: at + 1 }),
    }
}

/// The function where the program starts is the one called `main`.
pub open spec fn is_entry(name: Seq<char>) -> bool {
    name == "main"@
}

/// Walking the stack from the frame with instruction pointer `rip` and base
/// pointer `rbp`.  A frame is named if the symbol table knows its instruction
/// pointer; the walk ends, with nothing more named, at the first one that it
/// does not know.  After the frame of the entry function nothing is read.
/// Otherwise the caller's instruction pointer is read one word above the base
/// pointer and the caller's base pointer at the base pointer, and the walk
/// goes on there if that base pointer lies higher up.
pub open spec fn walk_run(
    h: Seq<Event>,
    at: int,
    pid: i32,
    symbols: SymbolTable,
    rip: u64,
    rbp: u64,
) -> Option<Run<Result<Seq<Frame>, TraceError>>>
    decreases u64::MAX - rbp,
{
    match symbols.frame_at(rip) {
        None => Some(Run { result: Ok(Seq::empty()), end: at }),
        Some(frame) => if is_entry(frame.function@) || rbp > u64::MAX - 8 {
            Some(Run { result: Ok(seq![frame]), end: at })
        } else {
            match peeked(h, at, pid, (rbp + 8) as u64) {
                None => None,
                Some(Err(e)) => Some(Run { result: Err(e), end: at + 1 }),
                Some(Ok(ret)) => match peeked(h, at + 1, pid, rbp) {
                    None => None,
                    Some(Err(e)) => Some(Run { result: Err(e), end: at + 2 }),
                    Some(Ok(up)) => if up <= rbp {
                        Some(Run { result: Ok(seq![frame]), end: at + 2 })
                    } else {
                        graft(seq![frame], walk_run(h, at + 2, pid, symbols, ret, up))
                    },
                },
            }
        },
    }
}

/// `run` with `frames` put in front of the frames that it found.
pub open spec fn graft(
    frames: Seq<Frame>,
    run: Option<Run<Result<Seq<Frame>, TraceError>>>,
) -> Option<Run<Result<Seq<Frame>, TraceError>>> {
    match run {
        None => None,
        Some(Run { result: Err(e), end }) => Some(Run { result: Err(e), end }),
        Some(Run { result: Ok(rest), end }) => Some(Run { result: Ok(frames + rest), end }),
    }
}

/// A backtrace: the registers are read, and the stack is walked from the
/// frame that they show.
pub open spec fn backtrace_run(h: Seq<Event>, at: int, pid: i32, symbols: SymbolTable) -> Option<
    Run<Result<Seq<Frame>, TraceError>>,
> {
    match registers_read(h, at, pid) {
        None => None,
        Some(Err(e)) => Some(Run { result: Err(e), end: at + 1 }),
        Some(Ok(regs)) => walk_run(h, at + 1, pid, symbols, regs.rip, regs.rbp),
    }
}

/// Frames put in front one after the other are put in front together.
proof fn lemma_graft_twice(
    first: Seq<Frame>,
    second: Seq<Frame>,
    run: Option<Run<Result<Seq<Frame>, TraceError>>>,
)
    ensures
        graft(first, graft(second, run)) == graft(first + second, run),
{
    match run {
        Some(Run { result: Ok(rest), end }) => {
            assert(first + (second + rest) =~= (first + second) + rest);
        },
        _ => {},
    }
}

/// Putting no frames in front changes nothing.
proof fn lemma_graft_none(run: Option<Run<Result<Seq<Frame>, TraceError>>>)
    ensures
        graft(Seq::empty(), run) == run,
{
    match run {
        Some(Run { result: Ok(rest), end }) => {
            assert(Seq::<Frame>::empty() + rest =~= rest);
        },
        _ => {},
    }
}

/// At place `k` of `h` a word was written over the one that holds `addr`, and
/// the byte that it puts at `addr` is `byte`.
pub open spec fn byte_written(h: Seq<Event>, k: int, pid: i32, addr: u64, byte: u8) -> bool {
    &&& 0 <= k < h.len()
    &&& h[k] matches Event::Poke { pid: p, addr: a, word, reply }
    &&& p == pid
    &&& a == word_base(addr)
    &&& reply is Ok
    &&& byte_at(word, byte_offset(addr)) == byte
}

/// A patch that went well read a word and wrote it back with one byte
/// changed: the byte at `addr` is the new one, every other byte of the word is
/// as it was read, and the byte returned is the one read at `addr`.
pub proof fn lemma_patch_changes_one_byte(h: Seq<Event>, at: int, pid: i32, addr: u64, val: u8)
    requires
        patch_run(h, at, pid, addr, val) matches Some(run) && run.result is Ok,
    ensures
        patch_run(h, at, pid, addr, val).unwrap().end == at + 2,
        byte_written(h, at + 1, pid, addr, val),
        h[at] matches Event::Peek { reply: Ok(read), .. } && h[at + 1] matches Event::Poke {
            word: written,
            ..
        } && patch_run(h, at, pid, addr, val).unwrap().result == Ok::<u8, TraceError>(
            byte_at(read, byte_offset(addr)),
        ) && forall|j: u64|
            j < 8 && j != byte_offset(addr) ==> byte_at(written, j) == byte_at(read, j),
{
    let word = peeked(h, at, pid, word_base(addr)).unwrap().unwrap();
    crate::word::lemma_with_byte(word, byte_offset(addr), val);
}

/// Patching a byte and reading it back: where the word read at the second
/// patch is the word that the first one wrote, the byte that the second one
/// finds at `addr` is the byte that the first one put there.
pub proof fn lemma_patch_reads_back(
    h: Seq<Event>,
    at: int,
    pid: i32,
    addr: u64,
    val: u8,
    again: int,
    next: u8,
)
    requires
        patch_run(h, at, pid, addr, val) matches Some(run) && run.result is Ok,
        patch_run(h, again, pid, addr, next) matches Some(run) && run.result is Ok,
        h[at + 1] matches Event::Poke { word: written, .. } && h[again] matches Event::Peek {
            reply: Ok(read),
            ..
        } && read == written,
    ensures
        patch_run(h, again, pid, addr, next).unwrap().result == Ok::<u8, TraceError>(val),
{
    lemma_patch_changes_one_byte(h, at, pid, addr, val);
    lemma_patch_changes_one_byte(h, again, pid, addr, next);
}

/// Getting over a trap, when it ends in a stop: the stop is reported at the
/// breakpoint, with the signal of the trap.  The original byte was written
/// back before the process was stepped, and the trap was written again after
/// the step, as the last request of all.
pub proof fn lemma_recover_order(h: Seq<Event>, at: int, pid: i32, bp: BreakPoint, signal: i32)
    requires
        0 <= at,
        recover_run(h, at, pid, bp, signal) matches Some(run) && run.result matches Ok(
            Status::Stopped(_, _),
        ),
    ensures
        ({
            let run = recover_run(h, at, pid, bp, signal).unwrap();
            &&& run.result == Ok::<Status, TraceError>(Status::Stopped(signal, bp.addr))
            &&& byte_written(h, at + 1, pid, bp.addr, bp.origin_byte)
            &&& stepped(h, at + 4, pid) matches Some(reply) && reply is Ok
            &&& byte_written(h, run.end - 1, pid, bp.addr, TRAP)
            &&& at + 4 < run.end - 1
        }),
{
    lemma_patch_changes_one_byte(h, at, pid, bp.addr, bp.origin_byte);
    let waited = wait_run(h, at + 5, pid, false).unwrap();
    lemma_patch_changes_one_byte(h, waited.end, pid, bp.addr, TRAP);
}

/// A run of the process that ends in a trap: where the wait finds the process
/// stopped one byte behind an installed breakpoint, and the process gets over
/// the trap and stops again, the stop is reported at the breakpoint and with
/// the signal of the first stop.
pub proof fn lemma_resume_reports_breakpoint(
    h: Seq<Event>,
    at: int,
    pid: i32,
    points: Seq<BreakPoint>,
)
    requires
        0 <= at,
        resume_run(h, at, pid, points) matches Some(run) && run.result matches Ok(
            Status::Stopped(_, _),
        ),
        wait_run(h, at + 1, pid, false) matches Some(seen) && seen.result matches Ok(
            Status::Stopped(_, rip),
        ) && trap_site(points, rip) is Some,
    ensures
        ({
            let seen = wait_run(h, at + 1, pid, false).unwrap();
            let bp = trap_site(points, seen.result.unwrap()->Stopped_1).unwrap();
            let run = resume_run(h, at, pid, points).unwrap();
            &&& bp.installed
            &&& bp.addr + 1 == seen.result.unwrap()->Stopped_1
            &&& run.result == Ok::<Status, TraceError>(
                Status::Stopped(seen.result.unwrap()->Stopped_0, bp.addr),
            )
            &&& byte_written(h, seen.end + 1, pid, bp.addr, bp.origin_byte)
            &&& byte_written(h, run.end - 1, pid, bp.addr, TRAP)
        }),
{
    let seen = wait_run(h, at + 1, pid, false).unwrap();
    let bp = trap_site(points, seen.result.unwrap()->Stopped_1).unwrap();
    lemma_recover_order(h, seen.end, pid, bp, seen.result.unwrap()->Stopped_0);
}

/// The frames that a walk of the stack names: the first is the place of the
/// instruction pointer that the walk starts from, every one is a place that
/// the symbol table knows, and none but the last is in the entry function.
/// Where the table has a name for every function and a file for every line,
/// every frame names a function and a file.
pub proof fn lemma_walk_frames(
    h: Seq<Event>,
    at: int,
    pid: i32,
    symbols: SymbolTable,
    rip: u64,
    rbp: u64,
)
    requires
        walk_run(h, at, pid, symbols, rip, rbp) matches Some(run) && run.result is Ok,
    ensures
        ({
            let frames = walk_run(h, at, pid, symbols, rip, rbp).unwrap().result.unwrap();
            &&& symbols.frame_at(rip) is Some ==> frames.len() > 0 && symbols.frame_at(rip) == Some(
                frames[0],
            )
            &&& symbols.frame_at(rip) is None ==> frames.len() == 0
            &&& forall|j: int|
                0 <= j < frames.len() ==> exists|addr: u64|
                    symbols.frame_at(addr) == Some(#[trigger] frames[j])
            &&& forall|j: int|
                0 <= j < frames.len() && is_entry((#[trigger] frames[j]).function@) ==> j
                    == frames.len() - 1
            &&& symbols.named() ==> forall|j: int|
                0 <= j < frames.len() ==> (#[trigger] frames[j]).function@.len() > 0
                    && frames[j].file@.len() > 0
        }),
    decreases u64::MAX - rbp,
{
    let frames = walk_run(h, at, pid, symbols, rip, rbp).unwrap().result.unwrap();
    if symbols.named() {
        assert forall|j: int| 0 <= j < frames.len() implies (#[trigger] frames[j]).function@.len()
            > 0 && frames[j].file@.len() > 0 by {
            lemma_named_frames(h, at, pid, symbols, rip, rbp, j);
        }
    }
    match symbols.frame_at(rip) {
        None => {},
        Some(frame) => {
            if is_entry(frame.function@) || rbp > u64::MAX - 8 {
                assert(frames =~= seq![frame]);
            } else {
                let ret = peeked(h, at, pid, (rbp + 8) as u64).unwrap().unwrap();
                let up = peeked(h, at + 1, pid, rbp).unwrap().unwrap();
                if up <= rbp {
                    assert(frames =~= seq![frame]);
                } else {
                    lemma_walk_frames(h, at + 2, pid, symbols, ret, up);
                    let rest = walk_run(h, at + 2, pid, symbols, ret, up).unwrap().result.unwrap();
                    assert(frames =~= seq![frame] + rest);
                    assert forall|j: int| 0 <= j < frames.len() implies exists|addr: u64|
                        symbols.frame_at(addr) == Some(#[trigger] frames[j]) by {
                        if j > 0 {
                            assert(frames[j] == rest[j - 1]);
                        }
                    }
                    assert forall|j: int|
                        0 <= j < frames.len() && is_entry(
                            (#[trigger] frames[j]).function@,
                        ) implies j == frames.len() - 1 by {
                        if j > 0 {
                            assert(frames[j] == rest[j - 1]);
                        }
                    }
                }
            }
            assert(symbols.frame_at(rip) == Some(frames[0]));
        },
    }
}

/// In a table with a name for every function and a file for every line, the
/// frame at place `j` of a walk names a function and a file.
proof fn lemma_named_frames(
    h: Seq<Event>,
    at: int,
    pid: i32,
    symbols: SymbolTable,
    rip: u64,
    rbp: u64,
    j: int,
)
    requires
        symbols.named(),
        walk_run(h, at, pid, symbols, rip, rbp) matches Some(run) && run.result matches Ok(frames)
            && 0 <= j < frames.len(),
    ensures
        ({
            let frames = walk_run(h, at, pid, symbols, rip, rbp).unwrap().result.unwrap();
            frames[j].function@.len() > 0 && frames[j].file@.len() > 0
        }),
    decreases u64::MAX - rbp,
{
    let frames = walk_run(h, at, pid, symbols, rip, rbp).unwrap().result.unwrap();
    let frame = symbols.frame_at(rip).unwrap();
    lemma_frame_named(symbols, rip);
    if is_entry(frame.function@) || rbp > u64::MAX - 8 {
        assert(frames =~= seq![frame]);
    } else {
        let ret = peeked(h, at, pid, (rbp + 8) as u64).unwrap().unwrap();
        let up = peeked(h, at + 1, pid, rbp).unwrap().unwrap();
        if up <= rbp {
            assert(frames =~= seq![frame]);
        } else {
            let rest = walk_run(h, at + 2, pid, symbols, ret, up).unwrap().result.unwrap();
            assert(frames =~= seq![frame] + rest);
            if j > 0 {
                lemma_named_frames(h, at + 2, pid, symbols, ret, up, j - 1);
                assert(frames[j] == rest[j - 1]);
            }
        }
    }
}

/// The stack is whole from the frame with instruction pointer `rip` and base
/// pointer `rbp` up to the entry function, `depth` calls above: the symbol
/// table knows every instruction pointer on the way, only the last of them
/// lies in the entry function, every read goes well, and every saved base
/// pointer lies above the one before.
pub open spec fn whole_chain(
    h: Seq<Event>,
    at: int,
    pid: i32,
    symbols: SymbolTable,
    rip: u64,
    rbp: u64,
    depth: nat,
) -> bool
    decreases depth,
{
    match symbols.frame_at(rip) {
        None => false,
        Some(frame) => if depth == 0 {
            is_entry(frame.function@)
        } else {
            &&& !is_entry(frame.function@)
            &&& rbp <= u64::MAX - 8
            &&& peeked(h, at, pid, (rbp + 8) as u64) matches Some(Ok(ret))
            &&& peeked(h, at + 1, pid, rbp) matches Some(Ok(up))
            &&& up > rbp
            &&& whole_chain(h, at + 2, pid, symbols, ret, up, (depth - 1) as nat)
        },
    }
}

/// A walk of a whole stack, `depth` calls below the entry function, names
/// `depth + 1` frames, innermost first: the first is the place of `rip`, each
/// next one is the place of the return address read one word above the base
/// pointer of the one before, and the last, and no other, is in the entry
/// function.  Two words are read for every call, and nothing after the entry
/// function.
pub proof fn lemma_walk_whole_chain(
    h: Seq<Event>,
    at: int,
    pid: i32,
    symbols: SymbolTable,
    rip: u64,
    rbp: u64,
    depth: nat,
)
    requires
        whole_chain(h, at, pid, symbols, rip, rbp, depth),
    ensures
        walk_run(h, at, pid, symbols, rip, rbp) matches Some(run) && run.result matches Ok(frames)
            && {
            &&& run.end == at + 2 * depth
            &&& frames.len() == depth + 1
            &&& symbols.frame_at(rip) == Some(frames[0])
            &&& is_entry(frames[depth as int].function@)
            &&& forall|j: int| 0 <= j < depth ==> !is_entry((#[trigger] frames[j]).function@)
            &&& depth > 0 ==> walk_run(
                h,
                at + 2,
                pid,
                symbols,
                peeked(h, at, pid, (rbp + 8) as u64).unwrap().unwrap(),
                peeked(h, at + 1, pid, rbp).unwrap().unwrap(),
            ) == Some(Run { result: Ok::<Seq<Frame>, TraceError>(frames.skip(1)), end: run.end })
        },
    decreases depth,
{
    let frame = symbols.frame_at(rip).unwrap();
    if depth == 0 {
        let frames = walk_run(h, at, pid, symbols, rip, rbp).unwrap().result.unwrap();
        assert(frames =~= seq![frame]);
    } else {
        let ret = peeked(h, at, pid, (rbp + 8) as u64).unwrap().unwrap();
        let up = peeked(h, at + 1, pid, rbp).unwrap().unwrap();
        lemma_walk_whole_chain(h, at + 2, pid, symbols, ret, up, (depth - 1) as nat);
        let callers = walk_run(h, at + 2, pid, symbols, ret, up).unwrap().result.unwrap();
        let frames = walk_run(h, at, pid, symbols, rip, rbp).unwrap().result.unwrap();
        assert(frames =~= seq![frame] + callers);
        assert(callers =~= frames.skip(1));
        assert forall|j: int| 0 <= j < depth implies !is_entry(
            (#[trigger] frames[j]).function@,
        ) by {
            if j > 0 {
                assert(frames[j] == callers[j - 1]);
            }
        }
        assert(frames[depth as int] == callers[depth - 1]);
    }
}

impl Inferior {
    /// Starts `target` with `args` under trace.  Returns the new process if it
    /// was seen to stop before its first instruction, and `None` otherwise.
    pub fn new<T: Tracer>(os: &mut T, target: &str, args: &Vec<String>) -> (started: Option<
        Inferior,
    >)
        ensures
            extends(final(os).history(), old(os).history()),
            start_run(
                final(os).history(),
                old(os).history().len() as int,
                target@,
                arg_views(args@),
            ) == Some(Run { result: started, end: final(os).history().len() as int }),
    {
        match os.launch(target, args) {
            None => None,
            Some(pid) => {
                let inferior = Inferior { pid };
                match inferior.wait(os, true) {
                    Ok(Status::Stopped(_, _)) => Some(inferior),
                    _ => None,
                }
            },
        }
    }

    /// The id of the process.
    pub fn pid(&self) -> (pid: i32)
        ensures
            pid == self.pid,
    {
        self.pid
    }

    /// Reads the registers of the stopped process.
    pub fn registers<T: Tracer>(&self, os: &mut T) -> (regs: Result<Registers, TraceError>)
        ensures
            final(os).history() == old(os).history().push(
                Event::GetRegs { pid: self.pid, reply: regs },
            ),
    {
        os.registers(self.pid)
    }

    /// Sets the registers of the stopped process.
    pub fn set_registers<T: Tracer>(&self, os: &mut T, regs: Registers) -> (done: Result<
        (),
        TraceError,
    >)
        ensures
            final(os).history() == old(os).history().push(
                Event::SetRegs { pid: self.pid, regs, reply: done },
            ),
    {
        os.set_registers(self.pid, regs)
    }

    /// Blocks until the process changes state, and says what it changed to.
    pub fn wait<T: Tracer>(&self, os: &mut T, stops: bool) -> (status: Result<Status, TraceError>)
        ensures
            extends(final(os).history(), old(os).history()),
            wait_run(final(os).history(), old(os).history().len() as int, self.pid, stops) == Some(
                Run { result: status, end: final(os).history().len() as int },
            ),
    {
        match os.wait(self.pid, stops) {
            Err(e) => Err(e),
            Ok(Change::Exited(code)) => Ok(Status::Exited(code)),
            Ok(Change::Signaled(signal)) => Ok(Status::Signaled(signal)),
            Ok(Change::Other) => Err(TraceError::Unexpected),
            Ok(Change::Stopped(signal)) => match os.registers(self.pid) {
                Err(e) => Err(e),
                Ok(regs) => Ok(Status::Stopped(signal, regs.rip)),
            },
        }
    }

    /// Replaces the byte at `addr` by `val` and returns the byte that was there.
    /// The other bytes of the word are written back as they were read.
    pub fn write_byte<T: Tracer>(&self, os: &mut T, addr: u64, val: u8) -> (old_byte: Result<
        u8,
        TraceError,
    >)
        ensures
            extends(final(os).history(), old(os).history()),
            patch_run(final(os).history(), old(os).history().len() as int, self.pid, addr, val)
                == Some(Run { result: old_byte, end: final(os).history().len() as int }),
    {
        let base = align_addr_to_word(addr);
        let k = addr - base;
        match os.peek(self.pid, base) {
            Err(e) => Err(e),
            Ok(word) => match os.poke(self.pid, base, set_byte(word, k, val)) {
                Err(e) => Err(e),
                Ok(()) => Ok(get_byte(word, k)),
            },
        }
    }

    /// Gets the process over the trap of `bp`, which it ran into with `signal`.
    pub fn step_over<T: Tracer>(&self, os: &mut T, bp: BreakPoint, signal: i32) -> (status: Result<
        Status,
        TraceError,
    >)
        ensures
            extends(final(os).history(), old(os).history()),
            recover_run(final(os).history(), old(os).history().len() as int, self.pid, bp, signal)
                == Some(Run { result: status, end: final(os).history().len() as int }),
    {
        match self.write_byte(os, bp.addr, bp.origin_byte) {
            Err(e) => {
                return Err(e);
            },
            Ok(_) => {},
        }
        let regs = match os.registers(self.pid) {
            Err(e) => {
                return Err(e);
            },
            Ok(regs) => regs,
        };
        match os.set_registers(self.pid, Registers { rip: bp.addr, rsp: regs.rsp, rbp: regs.rbp }) {
            Err(e) => {
                return Err(e);
            },
            Ok(()) => {},
        }
        match os.step(self.pid) {
            Err(e) => {
                return Err(e);
            },
            Ok(()) => {},
        }
        match self.wait(os, false) {
            Err(e) => {
                return Err(e);
            },
            Ok(Status::Exited(code)) => {
                return Ok(Status::Exited(code));
            },
            Ok(Status::Signaled(s)) => {
                return Ok(Status::Signaled(s));
            },
            Ok(Status::Stopped(_, _)) => {},
        }
        match self.write_byte(os, bp.addr, TRAP) {
            Err(e) => Err(e),
            Ok(_) => Ok(Status::Stopped(signal, bp.addr)),
        }
    }

    /// Lets the process run until it changes state, and says what it changed
    /// to.  A stop at a breakpoint is reported at the breakpoint's address,
    /// with the process already past that instruction and the trap in place.
    pub fn wakeup_wait<T: Tracer>(&self, os: &mut T, breakpoints: &BreakpointTable) -> (status:
        Result<Status, TraceError>)
        requires
            breakpoints.wf(),
        ensures
            extends(final(os).history(), old(os).history()),
            resume_run(
                final(os).history(),
                old(os).history().len() as int,
                self.pid,
                breakpoints@,
            ) == Some(Run { result: status, end: final(os).history().len() as int }),
    {
        match os.resume(self.pid) {
            Err(e) => {
                return Err(e);
            },
            Ok(()) => {},
        }
        match self.wait(os, false) {
            Ok(Status::Stopped(signal, rip)) => {
                if rip >= 1 {
                    match breakpoints.at(rip - 1) {
                        Some(bp) => {
                            if bp.installed {
                                return self.step_over(os, bp, signal);
                            }
                        },
                        None => {},
                    }
                }
                Ok(Status::Stopped(signal, rip))
            },
            other => other,
        }
    }

    /// The frames of the stopped process, innermost first.
    pub fn backtrace<T: Tracer>(&self, os: &mut T, debug_data: &SymbolTable) -> (frames: Result<
        Vec<Frame>,
        TraceError,
    >)
        ensures
            extends(final(os).history(), old(os).history()),
            backtrace_run(
                final(os).history(),
                old(os).history().len() as int,
                self.pid,
                *debug_data,
            ) == Some(
                Run {
                    result: match frames {
                        Ok(found) => Ok(found@),
                        Err(e) => Err(e),
                    },
                    end: final(os).history().len() as int,
                },
            ),
    {
        let ghost before = os.history();
        let regs = match os.registers(self.pid) {
            Err(e) => {
                return Err(e);
            },
            Ok(regs) => regs,
        };
        let ghost at = os.history().len() as int;
        let ghost rip0 = regs.rip;
        let ghost rbp0 = regs.rbp;
        let mut rip = regs.rip;
        let mut rbp = regs.rbp;
        let mut frames: Vec<Frame> = Vec::new();
        let mut done: Result<(), TraceError> = Ok(());
        proof {
            assert forall|h: Seq<Event>| #[trigger] extends(h, os.history()) implies walk_run(
                h,
                at,
                self.pid,
                *debug_data,
                rip0,
                rbp0,
            ) == graft(
                frames@,
                walk_run(h, os.history().len() as int, self.pid, *debug_data, rip, rbp),
            ) by {
                lemma_graft_none(walk_run(h, at, self.pid, *debug_data, rip0, rbp0));
            }
        }
        loop
            invariant_except_break
                forall|h: Seq<Event>| #[trigger]
                    extends(h, os.history()) ==> walk_run(h, at, self.pid, *debug_data, rip0, rbp0)
                        == graft(
                        frames@,
                        walk_run(h, os.history().len() as int, self.pid, *debug_data, rip, rbp),
                    ),
            invariant
                extends(os.history(), before),
                at == before.len() + 1,
                at <= os.history().len(),
                registers_read(os.history(), at - 1, self.pid) == Some(
                    Ok::<Registers, TraceError>(Registers { rip: rip0, rsp: regs.rsp, rbp: rbp0 }),
                ),
            ensures
                walk_run(os.history(), at, self.pid, *debug_data, rip0, rbp0) == Some(
                    Run {
                        result: match done {
                            Ok(()) => Ok(frames@),
                            Err(e) => Err(e),
                        },
                        end: os.history().len() as int,
                    },
                ),
            decreases u64::MAX - rbp,
        {
            let ghost here = os.history();
            let ghost seen = frames@;
            assert(extends(here, here));
            let frame = match debug_data.get_frame_from_addr(rip) {
                None => {
                    proof {
                        assert(seen + Seq::<Frame>::empty() =~= seen);
                    }
                    done = Ok(());
                    break ;
                },
                Some(frame) => frame,
            };
            let entry = frame.function == "main".to_owned();
            frames.push(frame);
            assert(seen + seq![frame] =~= frames@);
            if entry || rbp > u64::MAX - 8 {
                done = Ok(());
                break ;
            }
            let ret = match os.peek(self.pid, rbp + 8) {
                Err(e) => {
                    assert(extends(os.history(), here));
                    done = Err(e);
                    break ;
                },
                Ok(ret) => ret,
            };
            let up = match os.peek(self.pid, rbp) {
                Err(e) => {
                    assert(extends(os.history(), here));
                    done = Err(e);
                    break ;
                },
                Ok(up) => up,
            };
            if up <= rbp {
                assert(extends(os.history(), here));
                done = Ok(());
                break ;
            }
            proof {
                let now = os.history();
                assert forall|h: Seq<Event>| #[trigger] extends(h, now) implies walk_run(
                    h,
                    at,
                    self.pid,
                    *debug_data,
                    rip0,
                    rbp0,
                ) == graft(
                    frames@,
                    walk_run(h, now.len() as int, self.pid, *debug_data, ret, up),
                ) by {
                    assert(extends(h, here));
                    assert(h[here.len() as int] == now[here.len() as int]);
                    assert(h[here.len() as int + 1] == now[here.len() as int + 1]);
                    lemma_graft_twice(
                        seen,
                        seq![frame],
                        walk_run(h, now.len() as int, self.pid, *debug_data, ret, up),
                    );
                }
            }
            rip = ret;
            rbp = up;
        }
        match done {
            Ok(()) => Ok(frames),
            Err(e) => Err(e),
        }
    }

    /// Kills the process.
    pub fn kill<T: Tracer>(&mut self, os: &mut T) -> (done: Result<(), TraceError>)
        ensures
            *final(self) == *old(self),
            extends(final(os).history(), old(os).history()),
            kill_run(final(os).history(), old(os).history().len() as int, old(self).pid) == Some(
                Run { result: done, end: final(os).history().len() as int },
            ),
    {
        os.kill(self.pid)
    }
}

} // verus!
