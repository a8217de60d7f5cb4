//! The breakpoints of a session.
//!
//! A breakpoint is an address where the user wants the program to stop.  It is
//! installed by writing a trap instruction over the first byte at that address;
//! the byte that was there is kept, to be put back when the program has to run
//! through.  The table outlives the traced process: with no process every
//! breakpoint is pending, and each start of a process installs them anew.

use crate::inferior::{byte_written, lemma_patch_changes_one_byte, patch_run, Inferior};
use crate::trace::{extends, Event, Run, TraceError, Tracer};
use vstd::prelude::*;

verus! {

/// The one-byte instruction that stops a traced process.
pub const TRAP: u8 = 0xcc;

/// A stop that the user asked for.
#[derive(Clone, Copy, PartialEq, Eq, Debug, Structural)]
pub struct BreakPoint {
    /// Where to stop.
    pub addr: u64,
    /// The byte that the trap replaced; meaningful while `installed`.
    pub origin_byte: u8,
    /// Whether the trap stands in the memory of the current process.
    pub installed: bool,
}

/// No two breakpoints share an address.
pub open spec fn distinct(points: Seq<BreakPoint>) -> bool {
    forall|i: int, j: int| 0 <= i < j < points.len() ==> points[i].addr != points[j].addr
}

/// Some breakpoint of `points` is at `addr`.
pub open spec fn is_set(points: Seq<BreakPoint>, addr: u64) -> bool {
    exists|i: int| 0 <= i < points.len() && #[trigger] points[i].addr == addr
}

/// The place in `points` of the breakpoint at `addr`, where there is one.
pub open spec fn place(points: Seq<BreakPoint>, addr: u64) -> int {
    choose|i: int| 0 <= i < points.len() && #[trigger] points[i].addr == addr
}

/// `points` with every breakpoint pending.
pub open spec fn all_pending(points: Seq<BreakPoint>) -> Seq<BreakPoint> {
    Seq::new(
        points.len(),
        |i: int|
            BreakPoint {
                addr: points[i].addr,
                origin_byte: points[i].origin_byte,
                installed: false,
            },
    )
}

/// In `points` the breakpoint at `addr` is found at `i` and nowhere else.
pub proof fn lemma_place(points: Seq<BreakPoint>, addr: u64, i: int)
    requires
        distinct(points),
        0 <= i < points.len(),
        points[i].addr == addr,
    ensures
        is_set(points, addr),
        place(points, addr) == i,
{
    let j = place(points, addr);
    assert(0 <= j < points.len() && points[j].addr == addr);
    if j < i {
        assert(points[j].addr != points[i].addr);
    }
    if i < j {
        assert(points[i].addr != points[j].addr);
    }
}

/// What became of a request to set a breakpoint.
#[derive(Clone, Copy, PartialEq, Eq, Debug, Structural)]
pub enum Placed {
    /// It was set, and this is its number.
    New(usize),
    /// The address had a breakpoint already; the table is as it was.
    AlreadySet,
    /// The trap could not be written; the table is as it was.
    Failed(TraceError),
}

/// A table after the attempt to install its breakpoints.
pub struct Installed {
    /// The breakpoints, those that were installed marked so.
    pub points: Seq<BreakPoint>,
    /// The addresses where the trap could not be written, in table order.
    pub failed: Seq<u64>,
}

/// Setting a breakpoint at `addr`.  An address that has one is left alone.
/// With no process the breakpoint is entered as pending.  With a process the
/// trap is written first, and the breakpoint is entered, as installed and with
/// the byte that the trap replaced, only if that went well.
pub open spec fn set_run(
    h: Seq<Event>,
    at: int,
    inferior: Option<Inferior>,
    points: Seq<BreakPoint>,
    addr: u64,
) -> Option<Run<(Seq<BreakPoint>, Placed)>> {
    if is_set(points, addr) {
        Some(Run { result: (points, Placed::AlreadySet), end: at })
    } else {
        match inferior {
            None => Some(
                Run {
                    result: (
                        points.push(BreakPoint { addr, origin_byte: 0, installed: false }),
                        Placed::New(points.len() as usize),
                    ),
                    end: at,
                },
            ),
            Some(process) => match patch_run(h, at, process.pid, addr, TRAP) {
                None => None,
                Some(Run { result: Err(e), end }) => Some(
                    Run { result: (points, Placed::Failed(e)), end },
                ),
                Some(Run { result: Ok(byte), end }) => Some(
                    Run {
                        result: (
                            points.push(BreakPoint { addr, origin_byte: byte, installed: true }),
                            Placed::New(points.len() as usize),
                        ),
                        end,
                    },
                ),
            },
        }
    }
}

/// Installing the pending breakpoints of `points` from place `i` on, in table
/// order.  For each the trap is written; if that goes well the breakpoint is
/// marked installed, with the byte that the trap replaced, and if not its
/// address is noted and it stays pending.
pub open spec fn install_run(
    h: Seq<Event>,
    at: int,
    pid: i32,
    points: Seq<BreakPoint>,
    i: int,
) -> Option<Run<Installed>>
    decreases points.len() - i,
{
    if i < 0 || i >= points.len() {
        Some(Run { result: Installed { points, failed: Seq::empty() }, end: at })
    } else if points[i].installed {
        install_run(h, at, pid, points, i + 1)
    } else {
        match patch_run(h, at, pid, points[i].addr, TRAP) {
            None => None,
            Some(Run { result: Ok(byte), end }) => install_run(
                h,
                end,
                pid,
                points.update(
                    i,
                    BreakPoint { addr: points[i].addr, origin_byte: byte, installed: true },
                ),
                i + 1,
            ),
            Some(Run { result: Err(_), end }) => failed_before(
                seq![points[i].addr],
                install_run(h, end, pid, points, i + 1),
            ),
        }
    }
}

/// `run` with `failed` put in front of the failures that it noted.
pub open spec fn failed_before(failed: Seq<u64>, run: Option<Run<Installed>>) -> Option<
    Run<Installed>,
> {
    match run {
        None => None,
        Some(Run { result, end }) => Some(
            Run {
                result: Installed { points: result.points, failed: failed + result.failed },
                end,
            },
        ),
    }
}

/// Failures put in front one after the other are put in front together.
proof fn lemma_failed_before_twice(first: Seq<u64>, second: Seq<u64>, run: Option<Run<Installed>>)
    ensures
        failed_before(first, failed_before(second, run)) == failed_before(first + second, run),
{
    match run {
        Some(Run { result, end }) => {
            assert(first + (second + result.failed) =~= (first + second) + result.failed);
        },
        None => {},
    }
}

/// Putting no failures in front changes nothing.
proof fn lemma_failed_before_none(run: Option<Run<Installed>>)
    ensures
        failed_before(Seq::empty(), run) == run,
{
    match run {
        Some(Run { result, end }) => {
            assert(Seq::<u64>::empty() + result.failed =~= result.failed);
        },
        None => {},
    }
}

/// What installing does to each breakpoint from place `i` on, here the one at
/// place `j`.  One that was installed is left as it was.  One that was pending
/// either is installed now, and then the trap was written at its address in
/// the stretch of the record that belongs to the installing; or it is pending
/// still, and then its address is among the failures.  The breakpoints keep
/// their addresses and their places.
pub proof fn lemma_install_arms(
    h: Seq<Event>,
    at: int,
    pid: i32,
    points: Seq<BreakPoint>,
    i: int,
    j: int,
)
    requires
        0 <= at,
        0 <= i <= j < points.len(),
        install_run(h, at, pid, points, i) is Some,
    ensures
        ({
            let run = install_run(h, at, pid, points, i).unwrap();
            let now = run.result.points;
            &&& at <= run.end
            &&& now.len() == points.len()
            &&& forall|m: int| 0 <= m < i ==> (#[trigger] now[m]) == points[m]
            &&& now[j].addr == points[j].addr
            &&& points[j].installed ==> now[j] == points[j]
            &&& !points[j].installed && now[j].installed ==> exists|k: int|
                at <= k < run.end && #[trigger] byte_written(h, k, pid, points[j].addr, TRAP)
            &&& !points[j].installed && !now[j].installed ==> now[j] == points[j]
                && run.result.failed.contains(points[j].addr)
        }),
    decreases points.len() - i,
{
    let run = install_run(h, at, pid, points, i).unwrap();
    if points[i].installed {
        lemma_install_rest(h, at, pid, points, i + 1);
        if i < j {
            lemma_install_arms(h, at, pid, points, i + 1, j);
        }
    } else {
        let patched = patch_run(h, at, pid, points[i].addr, TRAP).unwrap();
        match patched.result {
            Ok(byte) => {
                let armed = points.update(
                    i,
                    BreakPoint { addr: points[i].addr, origin_byte: byte, installed: true },
                );
                lemma_patch_changes_one_byte(h, at, pid, points[i].addr, TRAP);
                lemma_install_rest(h, patched.end, pid, armed, i + 1);
                if i < j {
                    lemma_install_arms(h, patched.end, pid, armed, i + 1, j);
                    if !points[j].installed && run.result.points[j].installed {
                        let k = choose|k: int|
                            patched.end <= k < run.end && #[trigger] byte_written(
                                h,
                                k,
                                pid,
                                points[j].addr,
                                TRAP,
                            );
                        assert(at <= k < run.end && byte_written(h, k, pid, points[j].addr, TRAP));
                    }
                } else {
                    assert(byte_written(h, at + 1, pid, points[j].addr, TRAP));
                }
            },
            Err(_) => {
                let rest = install_run(h, patched.end, pid, points, i + 1).unwrap();
                lemma_install_rest(h, patched.end, pid, points, i + 1);
                assert(run.result.failed == seq![points[i].addr] + rest.result.failed);
                if i < j {
                    lemma_install_arms(h, patched.end, pid, points, i + 1, j);
                    if !points[j].installed && run.result.points[j].installed {
                        let k = choose|k: int|
                            patched.end <= k < run.end && #[trigger] byte_written(
                                h,
                                k,
                                pid,
                                points[j].addr,
                                TRAP,
                            );
                        assert(at <= k < run.end && byte_written(h, k, pid, points[j].addr, TRAP));
                    }
                    if !points[j].installed && !run.result.points[j].installed {
                        let m = choose|m: int|
                            0 <= m < rest.result.failed.len() && rest.result.failed[m]
                                == points[j].addr;
                        assert(run.result.failed[m + 1] == points[j].addr);
                    }
                } else {
                    assert(run.result.failed[0] == points[j].addr);
                }
            },
        }
    }
}

/// Installing from place `i` on leaves the breakpoints before `i` alone, keeps
/// the length of the table, and never moves back in the record.
pub proof fn lemma_install_rest(h: Seq<Event>, at: int, pid: i32, points: Seq<BreakPoint>, i: int)
    requires
        0 <= at,
        0 <= i <= points.len(),
        install_run(h, at, pid, points, i) is Some,
    ensures
        ({
            let run = install_run(h, at, pid, points, i).unwrap();
            &&& at <= run.end
            &&& run.result.points.len() == points.len()
            &&& forall|m: int| 0 <= m < i ==> (#[trigger] run.result.points[m]) == points[m]
        }),
    decreases points.len() - i,
{
    let run = install_run(h, at, pid, points, i).unwrap();
    if i >= points.len() {
    } else if points[i].installed {
        lemma_install_rest(h, at, pid, points, i + 1);
    } else {
        let patched = patch_run(h, at, pid, points[i].addr, TRAP).unwrap();
        match patched.result {
            Ok(byte) => {
                let armed = points.update(
                    i,
                    BreakPoint { addr: points[i].addr, origin_byte: byte, installed: true },
                );
                lemma_install_rest(h, patched.end, pid, armed, i + 1);
                assert forall|m: int| 0 <= m < i implies (#[trigger] run.result.points[m])
                    == points[m] by {
                    assert(armed[m] == points[m]);
                }
            },
            Err(_) => {
                lemma_install_rest(h, patched.end, pid, points, i + 1);
            },
        }
    }
}

/// A breakpoint is set once: after an address has been given a breakpoint,
/// setting one there again is answered with `AlreadySet`, asks nothing of the
/// tracing facility, and leaves the table as it is, with exactly one
/// breakpoint at that address.
pub proof fn lemma_set_twice(
    h: Seq<Event>,
    at: int,
    inferior: Option<Inferior>,
    points: Seq<BreakPoint>,
    addr: u64,
    later: Seq<Event>,
    again: int,
    then: Option<Inferior>,
)
    requires
        distinct(points),
        set_run(h, at, inferior, points, addr) matches Some(run) && run.result.1 is New,
    ensures
        ({
            let table = set_run(h, at, inferior, points, addr).unwrap().result.0;
            &&& set_run(later, again, then, table, addr) == Some(
                Run { result: (table, Placed::AlreadySet), end: again },
            )
            &&& distinct(table)
            &&& table[table.len() - 1].addr == addr
            &&& forall|i: int| 0 <= i < table.len() - 1 ==> (#[trigger] table[i]).addr != addr
        }),
{
    let table = set_run(h, at, inferior, points, addr).unwrap().result.0;
    assert(table[table.len() - 1].addr == addr);
    assert forall|i: int| 0 <= i < table.len() - 1 implies (#[trigger] table[i]).addr != addr by {
        assert(table[i] == points[i]);
    }
    assert forall|a: int, b: int| 0 <= a < b < table.len() implies table[a].addr
        != table[b].addr by {
        if b < points.len() {
            assert(points[a].addr != points[b].addr);
        } else {
            assert(table[a] == points[a]);
        }
    }
}

/// Installing reads only its own stretch of the record: on a record that has
/// grown since, it comes to the same.
pub proof fn lemma_install_stable(
    h: Seq<Event>,
    longer: Seq<Event>,
    at: int,
    pid: i32,
    points: Seq<BreakPoint>,
    i: int,
)
    requires
        extends(longer, h),
        install_run(h, at, pid, points, i) is Some,
        0 <= at,
    ensures
        install_run(longer, at, pid, points, i) == install_run(h, at, pid, points, i),
    decreases points.len() - i,
{
    if i < 0 || i >= points.len() {
    } else if points[i].installed {
        lemma_install_stable(h, longer, at, pid, points, i + 1);
    } else {
        let patched = patch_run(h, at, pid, points[i].addr, TRAP);
        assert(patched is Some);
        assert(longer[at] == h[at]);
        if patched.unwrap().end == at + 2 {
            assert(longer[at + 1] == h[at + 1]);
        }
        match patched.unwrap().result {
            Ok(byte) => {
                lemma_install_stable(
                    h,
                    longer,
                    patched.unwrap().end,
                    pid,
                    points.update(
                        i,
                        BreakPoint { addr: points[i].addr, origin_byte: byte, installed: true },
                    ),
                    i + 1,
                );
            },
            Err(_) => {
                lemma_install_stable(h, longer, patched.unwrap().end, pid, points, i + 1);
            },
        }
    }
}

/// The breakpoints in the order in which they were set.
pub struct BreakpointTable {
    points: Vec<BreakPoint>,
}

impl View for BreakpointTable {
    type V = Seq<BreakPoint>;

    closed spec fn view(&self) -> Seq<BreakPoint> {
        self.points@
    }
}

impl BreakpointTable {
    /// The table keeps one breakpoint per address.
    pub open spec fn wf(&self) -> bool {
        distinct(self@)
    }

    /// A table without breakpoints.
    pub fn new() -> (table: BreakpointTable)
        ensures
            table@ == Seq::<BreakPoint>::empty(),
            table.wf(),
    {
        BreakpointTable { points: Vec::new() }
    }

    /// How many breakpoints there are.
    pub fn len(&self) -> (n: usize)
        ensures
            n == self@.len(),
    {
        self.points.len()
    }

    /// The breakpoint that was set `i`-th, counting from 0.
    pub fn get(&self, i: usize) -> (bp: Option<BreakPoint>)
        ensures
            bp == if i < self@.len() {
                Some(self@[i as int])
            } else {
                None
            },
    {
        if i < self.points.len() {
            Some(self.points[i])
        } else {
            None
        }
    }

    /// Where in the table the breakpoint at `addr` is.
    pub fn find(&self, addr: u64) -> (found: Option<usize>)
        requires
            self.wf(),
        ensures
            found is Some <==> is_set(self@, addr),
            found matches Some(i) ==> i == place(self@, addr) && i < self@.len()
                && self@[i as int].addr == addr,
    {
        let mut i: usize = 0;
        while i < self.points.len()
            invariant
                i <= self.points.len(),
                self.wf(),
                forall|j: int| 0 <= j < i ==> self@[j].addr != addr,
            decreases self.points.len() - i,
        {
            if self.points[i].addr == addr {
                proof {
                    lemma_place(self@, addr, i as int);
                }
                return Some(i);
            }
            i += 1;
        }
        None
    }

    /// The breakpoint at `addr`, if there is one.
    pub fn at(&self, addr: u64) -> (found: Option<BreakPoint>)
        requires
            self.wf(),
        ensures
            found == if is_set(self@, addr) {
                Some(self@[place(self@, addr)])
            } else {
                None
            },
    {
        match self.find(addr) {
            Some(i) => Some(self.points[i]),
            None => None,
        }
    }

    /// Appends a breakpoint at an address that has none yet, and says
    /// which place it took.
    fn add(&mut self, bp: BreakPoint) -> (index: usize)
        requires
            old(self).wf(),
            !is_set(old(self)@, bp.addr),
        ensures
            final(self).wf(),
            final(self)@ == old(self)@.push(bp),
            index == old(self)@.len(),
    {
        let index = self.points.len();
        self.points.push(bp);
        assert forall|i: int, j: int| 0 <= i < j < self@.len() implies self@[i].addr
            != self@[j].addr by {
            if j == index {
                assert(old(self)@[i].addr != bp.addr);
            } else {
                assert(old(self)@[i].addr != old(self)@[j].addr);
            }
        }
        index
    }

    /// Notes that the `i`-th breakpoint now stands in memory in place of
    /// `origin_byte`.
    fn set_installed(&mut self, i: usize, origin_byte: u8)
        requires
            old(self).wf(),
            i < old(self)@.len(),
        ensures
            final(self).wf(),
            final(self)@ == old(self)@.update(
                i as int,
                BreakPoint { addr: old(self)@[i as int].addr, origin_byte, installed: true },
            ),
    {
        let addr = self.points[i].addr;
        self.points.set(i, BreakPoint { addr, origin_byte, installed: true });
        assert forall|a: int, b: int| 0 <= a < b < self@.len() implies self@[a].addr
            != self@[b].addr by {
            assert(old(self)@[a].addr != old(self)@[b].addr);
        }
    }

    /// Sets a breakpoint at `addr`, in the memory of `inferior` if there is
    /// such a process.
    pub fn set<T: Tracer>(&mut self, os: &mut T, inferior: Option<Inferior>, addr: u64) -> (placed:
        Placed)
        requires
            old(self).wf(),
        ensures
            final(self).wf(),
            extends(final(os).history(), old(os).history()),
            set_run(final(os).history(), old(os).history().len() as int, inferior, old(self)@, addr)
                == Some(
                Run { result: (final(self)@, placed), end: final(os).history().len() as int },
            ),
    {
        if self.find(addr).is_some() {
            return Placed::AlreadySet;
        }
        match inferior {
            None => Placed::New(self.add(BreakPoint { addr, origin_byte: 0, installed: false })),
            Some(process) => match process.write_byte(os, addr, TRAP) {
                Err(e) => Placed::Failed(e),
                Ok(byte) => Placed::New(
                    self.add(BreakPoint { addr, origin_byte: byte, installed: true }),
                ),
            },
        }
    }

    /// Installs every pending breakpoint in the memory of `inferior`, and
    /// returns the addresses where that failed.
    pub fn reinstall_all<T: Tracer>(&mut self, os: &mut T, inferior: &Inferior) -> (failed: Vec<
        u64,
    >)
        requires
            old(self).wf(),
        ensures
            final(self).wf(),
            extends(final(os).history(), old(os).history()),
            install_run(
                final(os).history(),
                old(os).history().len() as int,
                inferior.pid,
                old(self)@,
                0,
            ) == Some(
                Run {
                    result: Installed { points: final(self)@, failed: failed@ },
                    end: final(os).history().len() as int,
                },
            ),
    {
        let ghost before = os.history();
        let ghost at = before.len() as int;
        let ghost pid = inferior.pid;
        let ghost points = self@;
        let mut failed: Vec<u64> = Vec::new();
        let mut i: usize = 0;
        proof {
            assert forall|h: Seq<Event>| #[trigger] extends(h, os.history()) implies install_run(
                h,
                at,
                pid,
                points,
                0,
            ) == failed_before(
                failed@,
                install_run(h, os.history().len() as int, pid, self@, i as int),
            ) by {
                lemma_failed_before_none(install_run(h, at, pid, points, 0));
            }
        }
        while i < self.len()
            invariant
                self.wf(),
                i <= self@.len(),
                pid == inferior.pid,
                extends(os.history(), before),
                forall|h: Seq<Event>| #[trigger]
                    extends(h, os.history()) ==> install_run(h, at, pid, points, 0)
                        == failed_before(
                        failed@,
                        install_run(h, os.history().len() as int, pid, self@, i as int),
                    ),
            decreases self@.len() - i,
        {
            let ghost here = os.history();
            let ghost table = self@;
            let ghost noted = failed@;
            let bp = self.points[i];
            if !bp.installed {
                match inferior.write_byte(os, bp.addr, TRAP) {
                    Ok(byte) => {
                        self.set_installed(i, byte);
                    },
                    Err(_) => {
                        failed.push(bp.addr);
                    },
                }
            }
            proof {
                let now = os.history();
                assert forall|h: Seq<Event>| #[trigger] extends(h, now) implies install_run(
                    h,
                    at,
                    pid,
                    points,
                    0,
                ) == failed_before(
                    failed@,
                    install_run(h, now.len() as int, pid, self@, i + 1),
                ) by {
                    assert(extends(h, here));
                    if !bp.installed {
                        assert(patch_run(h, here.len() as int, pid, bp.addr, TRAP) == patch_run(
                            now,
                            here.len() as int,
                            pid,
                            bp.addr,
                            TRAP,
                        )) by {
                            assert(h[here.len() as int] == now[here.len() as int]);
                            if now.len() > here.len() + 1 {
                                assert(h[here.len() as int + 1] == now[here.len() as int + 1]);
                            }
                        }
                        if failed@.len() > noted.len() {
                            assert(failed@ =~= noted + seq![bp.addr]);
                            lemma_failed_before_twice(
                                noted,
                                seq![bp.addr],
                                install_run(h, now.len() as int, pid, table, i + 1),
                            );
                        }
                    }
                }
            }
            i += 1;
        }
        proof {
            assert(extends(os.history(), os.history()));
            assert(failed@ + Seq::<u64>::empty() =~= failed@);
        }
        failed
    }

    /// Makes every breakpoint pending: the process that held the traps is gone.
    pub(crate) fn clear_installed(&mut self)
        requires
            old(self).wf(),
        ensures
            final(self).wf(),
            final(self)@ == all_pending(old(self)@),
    {
        let mut i: usize = 0;
        while i < self.points.len()
            invariant
                i <= self.points.len(),
                self@.len() == old(self)@.len(),
                forall|j: int| 0 <= j < i ==> self@[j] == all_pending(old(self)@)[j],
                forall|j: int| i <= j < self@.len() ==> self@[j] == old(self)@[j],
            decreases self.points.len() - i,
        {
            let bp = self.points[i];
            self.points.set(
                i,
                BreakPoint { addr: bp.addr, origin_byte: bp.origin_byte, installed: false },
            );
            i += 1;
        }
        assert(self@ =~= all_pending(old(self)@));
        assert forall|a: int, b: int| 0 <= a < b < self@.len() implies self@[a].addr
            != self@[b].addr by {
            assert(old(self)@[a].addr != old(self)@[b].addr);
        }
    }
}

} // verus!
