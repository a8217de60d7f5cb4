//! The memory of the traced process, as far as the record shows it.
//!
//! The record does not say what the memory of a process holds: it says what
//! was written and what was read.  Where every word that is read is the word
//! that was last written there, the record is `faithful` to a memory, and
//! what the debugger did can be said of that memory: which bytes hold traps,
//! and which bytes are as they were.

use crate::breakpoints::{distinct, install_run, lemma_install_rest, BreakPoint, TRAP};
use crate::debugger::launch_turn;
use crate::inferior::{patch_run, recover_run, start_run, wait_run, Status};
use crate::symbols::SymbolTable;
use crate::trace::{peeked, resumed, stepped, Event, TraceError};
use crate::word::{byte_at, byte_offset, lemma_with_byte, with_byte, word_base};
use vstd::prelude::*;

verus! {

/// `mem` after `event`: a word that was written with success is there.
pub open spec fn after_event(mem: spec_fn(u64) -> u64, event: Event, pid: i32) -> spec_fn(
    u64,
) -> u64 {
    match event {
        Event::Poke { pid: p, addr, word, reply } => if p == pid && reply is Ok {
            |a: u64|
                if a == addr {
                    word
                } else {
                    mem(a)
                }
        } else {
            mem
        },
        _ => mem,
    }
}

/// The memory of process `pid` after the first `k` requests of `h`, if it was
/// `start` before them and nothing but these requests has changed it.
pub open spec fn memory_at(h: Seq<Event>, k: int, pid: i32, start: spec_fn(u64) -> u64) -> spec_fn(
    u64,
) -> u64
    decreases k,
{
    if k <= 0 || k > h.len() {
        start
    } else {
        after_event(memory_at(h, k - 1, pid, start), h[k - 1], pid)
    }
}

/// The byte at `addr` in `mem`.
pub open spec fn byte_in(mem: spec_fn(u64) -> u64, addr: u64) -> u8 {
    byte_at(mem(word_base(addr)), byte_offset(addr))
}

/// The request at place `k` of `h`, if it read a word, read what the memory
/// held then.
pub open spec fn reads_true(h: Seq<Event>, k: int, pid: i32, start: spec_fn(u64) -> u64) -> bool {
    h[k] matches Event::Peek { pid: p, addr, reply: Ok(word) } ==> (p == pid ==> memory_at(
        h,
        k,
        pid,
        start,
    )(addr) == word)
}

/// The first `n` requests of `h` read what the memory held: no word has
/// changed but by these requests.
pub open spec fn faithful(h: Seq<Event>, n: int, pid: i32, start: spec_fn(u64) -> u64) -> bool {
    forall|k: int| 0 <= k < n && k < h.len() ==> #[trigger] reads_true(h, k, pid, start)
}

/// A request that writes nothing leaves the memory as it is, and a write
/// that went well changes the one word.
proof fn lemma_step(h: Seq<Event>, k: int, pid: i32, start: spec_fn(u64) -> u64)
    requires
        0 <= k < h.len(),
    ensures
        memory_at(h, k + 1, pid, start) == after_event(memory_at(h, k, pid, start), h[k], pid),
{
}

/// Patching a byte, in a memory that the record is faithful to: the byte
/// returned is the byte that the memory held at `addr`; afterwards the memory
/// holds the new byte there, and every other byte is as it was.
pub proof fn lemma_patch_in_memory(
    h: Seq<Event>,
    at: int,
    pid: i32,
    addr: u64,
    val: u8,
    start: spec_fn(u64) -> u64,
)
    requires
        0 <= at,
        patch_run(h, at, pid, addr, val) matches Some(run) && run.result is Ok,
        faithful(h, at + 2, pid, start),
    ensures
        ({
            let before = memory_at(h, at, pid, start);
            let after = memory_at(h, at + 2, pid, start);
            &&& patch_run(h, at, pid, addr, val).unwrap().result == Ok::<u8, TraceError>(
                byte_in(before, addr),
            )
            &&& byte_in(after, addr) == val
            &&& forall|other: u64|
                other != addr ==> #[trigger] byte_in(after, other) == byte_in(before, other)
        }),
{
    let before = memory_at(h, at, pid, start);
    let after = memory_at(h, at + 2, pid, start);
    let base = word_base(addr);
    let k = byte_offset(addr);
    let word = peeked(h, at, pid, base).unwrap().unwrap();
    assert(reads_true(h, at, pid, start));
    assert(before(base) == word);
    lemma_step(h, at, pid, start);
    lemma_step(h, at + 1, pid, start);
    assert(memory_at(h, at + 1, pid, start) == before);
    assert(after(base) == with_byte(word, k, val));
    lemma_with_byte(word, k, val);
    assert forall|other: u64| other != addr implies #[trigger] byte_in(after, other) == byte_in(
        before,
        other,
    ) by {
        if word_base(other) == base {
            assert(byte_offset(other) != k) by {
                assert(other == word_base(other) + byte_offset(other));
                assert(addr == base + k);
            }
            assert(byte_offset(other) < 8);
        } else {
            assert(after(word_base(other)) == before(word_base(other)));
        }
    }
}

/// Between `from` and `to` no request wrote a word with success.
pub open spec fn nothing_written(h: Seq<Event>, from: int, to: int, pid: i32) -> bool {
    forall|k: int|
        from <= k < to ==> !((#[trigger] h[k]) matches Event::Poke { pid: p, reply, .. } && p == pid
            && reply is Ok)
}

/// Requests that write nothing leave the memory as it is.
proof fn lemma_unwritten(h: Seq<Event>, from: int, to: int, pid: i32, start: spec_fn(u64) -> u64)
    requires
        0 <= from <= to <= h.len(),
        nothing_written(h, from, to, pid),
    ensures
        memory_at(h, to, pid, start) == memory_at(h, from, pid, start),
    decreases to - from,
{
    if from < to {
        lemma_unwritten(h, from, to - 1, pid, start);
        assert(!(h[to - 1] matches Event::Poke { pid: p, reply, .. } && p == pid && reply is Ok));
    }
}

/// Getting over a trap, in a memory that the record is faithful to: when the
/// process is stepped, the memory holds the original byte at the breakpoint;
/// when the stop is reported, it holds the trap there again; and every other
/// byte is as it was before.
pub proof fn lemma_recover_in_memory(
    h: Seq<Event>,
    at: int,
    pid: i32,
    bp: BreakPoint,
    signal: i32,
    start: spec_fn(u64) -> u64,
)
    requires
        0 <= at,
        recover_run(h, at, pid, bp, signal) matches Some(run) && run.result matches Ok(
            Status::Stopped(_, _),
        ) && faithful(h, run.end, pid, start),
    ensures
        ({
            let run = recover_run(h, at, pid, bp, signal).unwrap();
            let before = memory_at(h, at, pid, start);
            let at_step = memory_at(h, at + 4, pid, start);
            let after = memory_at(h, run.end, pid, start);
            &&& stepped(h, at + 4, pid) matches Some(reply) && reply is Ok
            &&& byte_in(at_step, bp.addr) == bp.origin_byte
            &&& byte_in(after, bp.addr) == TRAP
            &&& forall|other: u64|
                other != bp.addr ==> #[trigger] byte_in(after, other) == byte_in(before, other)
        }),
{
    let run = recover_run(h, at, pid, bp, signal).unwrap();
    let seen = wait_run(h, at + 5, pid, false).unwrap();
    assert(seen.end == at + 7);
    assert(run.end == at + 9);
    let before = memory_at(h, at, pid, start);
    let restored = memory_at(h, at + 2, pid, start);
    let at_step = memory_at(h, at + 4, pid, start);
    let rearm = memory_at(h, at + 7, pid, start);
    let after = memory_at(h, run.end, pid, start);
    assert(faithful(h, at + 2, pid, start)) by {
        assert forall|k: int| 0 <= k < at + 2 && k < h.len() implies #[trigger] reads_true(
            h,
            k,
            pid,
            start,
        ) by {}
    }
    lemma_patch_in_memory(h, at, pid, bp.addr, bp.origin_byte, start);
    assert(nothing_written(h, at + 2, at + 7, pid));
    lemma_unwritten(h, at + 2, at + 4, pid, start);
    lemma_unwritten(h, at + 2, at + 7, pid, start);
    lemma_patch_in_memory(h, at + 7, pid, bp.addr, TRAP, start);
    assert forall|other: u64| other != bp.addr implies #[trigger] byte_in(after, other) == byte_in(
        before,
        other,
    ) by {
        assert(byte_in(after, other) == byte_in(rearm, other));
        assert(byte_in(restored, other) == byte_in(before, other));
    }
}

/// Since place `i` of the table a breakpoint at `a` has been installed:
/// `points` has it pending and `now` has it installed.
pub open spec fn armed_since(
    points: Seq<BreakPoint>,
    now: Seq<BreakPoint>,
    i: int,
    a: u64,
) -> bool {
    exists|j: int|
        i <= j < points.len() && j < now.len() && (#[trigger] points[j]).addr == a
            && !points[j].installed && now[j].installed
}

/// Installing breakpoints, in a memory that the record is faithful to: where
/// a breakpoint has been installed the memory holds the trap, and the byte
/// noted for the breakpoint is the byte that the memory held there before;
/// every other byte is as it was.  Breakpoints that share a word do not
/// disturb each other.
pub proof fn lemma_install_in_memory(
    h: Seq<Event>,
    at: int,
    pid: i32,
    points: Seq<BreakPoint>,
    i: int,
    start: spec_fn(u64) -> u64,
)
    requires
        0 <= at,
        0 <= i <= points.len(),
        distinct(points),
        install_run(h, at, pid, points, i) matches Some(run) && faithful(h, run.end, pid, start),
    ensures
        ({
            let run = install_run(h, at, pid, points, i).unwrap();
            let now = run.result.points;
            let before = memory_at(h, at, pid, start);
            let after = memory_at(h, run.end, pid, start);
            &&& now.len() == points.len()
            &&& forall|j: int|
                i <= j < points.len() && !points[j].installed && (#[trigger] now[j]).installed
                    ==> now[j].addr == points[j].addr && byte_in(after, points[j].addr) == TRAP
                    && now[j].origin_byte == byte_in(before, points[j].addr)
            &&& forall|a: u64|
                !armed_since(points, now, i, a) ==> #[trigger] byte_in(after, a) == byte_in(
                    before,
                    a,
                )
        }),
    decreases points.len() - i,
{
    let run = install_run(h, at, pid, points, i).unwrap();
    let now = run.result.points;
    let before = memory_at(h, at, pid, start);
    let after = memory_at(h, run.end, pid, start);
    lemma_install_rest(h, at, pid, points, i);
    if i >= points.len() {
        assert forall|a: u64| !armed_since(points, now, i, a) implies #[trigger] byte_in(after, a)
            == byte_in(before, a) by {}
    } else if points[i].installed {
        lemma_install_in_memory(h, at, pid, points, i + 1, start);
        assert forall|a: u64| !armed_since(points, now, i, a) implies #[trigger] byte_in(after, a)
            == byte_in(before, a) by {
            if armed_since(points, now, i + 1, a) {
                let j = choose|j: int|
                    i + 1 <= j < points.len() && j < now.len() && (#[trigger] points[j]).addr == a
                        && !points[j].installed && now[j].installed;
                assert(i <= j < points.len() && points[j].addr == a);
            }
        }
    } else {
        let patched = patch_run(h, at, pid, points[i].addr, TRAP).unwrap();
        let mid = memory_at(h, patched.end, pid, start);
        match patched.result {
            Ok(byte) => {
                let armed = points.update(
                    i,
                    BreakPoint { addr: points[i].addr, origin_byte: byte, installed: true },
                );
                lemma_install_rest(h, patched.end, pid, armed, i + 1);
                assert(faithful(h, at + 2, pid, start)) by {
                    assert forall|k: int|
                        0 <= k < at + 2 && k < h.len() implies #[trigger] reads_true(
                        h,
                        k,
                        pid,
                        start,
                    ) by {}
                }
                lemma_patch_in_memory(h, at, pid, points[i].addr, TRAP, start);
                assert(distinct(armed)) by {
                    assert forall|a: int, b: int| 0 <= a < b < armed.len() implies armed[a].addr
                        != armed[b].addr by {
                        assert(points[a].addr != points[b].addr);
                    }
                }
                lemma_install_in_memory(h, patched.end, pid, armed, i + 1, start);
                assert(now[i] == armed[i]);
                assert(!armed_since(armed, now, i + 1, points[i].addr)) by {
                    if armed_since(armed, now, i + 1, points[i].addr) {
                        let j = choose|j: int|
                            i + 1 <= j < armed.len() && j < now.len() && (#[trigger] armed[j]).addr
                                == points[i].addr && !armed[j].installed && now[j].installed;
                        assert(points[i].addr != points[j].addr);
                    }
                }
                assert forall|j: int|
                    i <= j < points.len() && !points[j].installed && (
                    #[trigger] now[j]).installed implies now[j].addr == points[j].addr
                    && byte_in(after, points[j].addr) == TRAP && now[j].origin_byte == byte_in(
                    before,
                    points[j].addr,
                ) by {
                    if j > i {
                        assert(armed[j] == points[j]);
                        assert(points[i].addr != points[j].addr);
                    }
                }
                assert forall|a: u64| !armed_since(points, now, i, a) implies #[trigger] byte_in(
                    after,
                    a,
                ) == byte_in(before, a) by {
                    assert(a != points[i].addr) by {
                        if a == points[i].addr {
                            assert(i <= i < points.len() && points[i].addr == a);
                        }
                    }
                    if armed_since(armed, now, i + 1, a) {
                        let j = choose|j: int|
                            i + 1 <= j < armed.len() && j < now.len() && (#[trigger] armed[j]).addr
                                == a && !armed[j].installed && now[j].installed;
                        assert(armed[j] == points[j]);
                        assert(i <= j < points.len() && points[j].addr == a);
                    }
                }
            },
            Err(_) => {
                assert(nothing_written(h, at, patched.end, pid));
                lemma_unwritten(h, at, patched.end, pid, start);
                lemma_install_rest(h, patched.end, pid, points, i + 1);
                lemma_install_in_memory(h, patched.end, pid, points, i + 1, start);
                assert(now[i] == points[i]);
                assert forall|a: u64| !armed_since(points, now, i, a) implies #[trigger] byte_in(
                    after,
                    a,
                ) == byte_in(before, a) by {
                    if armed_since(points, now, i + 1, a) {
                        let j = choose|j: int|
                            i + 1 <= j < points.len() && j < now.len() && (
                            #[trigger] points[j]).addr == a && !points[j].installed
                                && now[j].installed;
                        assert(i <= j < points.len() && points[j].addr == a);
                    }
                }
            },
        }
    }
}

/// Starting a program, in a memory that the record is faithful to: when the
/// new process is first let run, the memory holds the trap at every
/// breakpoint that is marked installed, and the byte noted for the breakpoint
/// is the byte that the program has there.
pub proof fn lemma_launch_in_memory(
    h: Seq<Event>,
    at: int,
    target: Seq<char>,
    args: Seq<Seq<char>>,
    symbols: SymbolTable,
    points: Seq<BreakPoint>,
    start: spec_fn(u64) -> u64,
)
    requires
        0 <= at,
        distinct(points),
        forall|i: int| 0 <= i < points.len() ==> !(#[trigger] points[i]).installed,
        launch_turn(h, at, target, args, symbols, points) is Some,
        start_run(h, at, target, args) matches Some(started) && started.result matches Some(
            process,
        ) && install_run(h, started.end, process.pid, points, 0) matches Some(installed)
            && faithful(h, installed.end, process.pid, start),
    ensures
        ({
            let started = start_run(h, at, target, args).unwrap();
            let process = started.result.unwrap();
            let installed = install_run(h, started.end, process.pid, points, 0).unwrap();
            let program = memory_at(h, started.end, process.pid, start);
            let armed = memory_at(h, installed.end, process.pid, start);
            &&& resumed(h, installed.end, process.pid) is Some
            &&& installed.result.points.len() == points.len()
            &&& forall|j: int|
                0 <= j < points.len() && (#[trigger] installed.result.points[j]).installed
                    ==> byte_in(armed, points[j].addr) == TRAP
                    && installed.result.points[j].origin_byte == byte_in(program, points[j].addr)
        }),
{
    let started = start_run(h, at, target, args).unwrap();
    let process = started.result.unwrap();
    assert(started.end >= at);
    lemma_install_in_memory(h, started.end, process.pid, points, 0, start);
}

} // verus!
