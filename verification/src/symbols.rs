//! What the debug information of a program says about its addresses.
//!
//! The table is loaded once, from outside; the debugger only looks things up:
//! from an address to the function and the source line that hold it, and from
//! a source line or a function's name to the address of its first instruction.

use vstd::prelude::*;

verus! {

/// A source line and the address of its first instruction.
#[derive(Clone, PartialEq, Eq, Debug)]
pub struct Line {
    pub file: String,
    pub number: usize,
    pub address: u64,
}

/// A function and the addresses that its instructions take up.
#[derive(Clone, PartialEq, Eq, Debug)]
pub struct Function {
    pub file: String,
    pub name: String,
    pub address: u64,
    pub text_length: u64,
}

/// A place in the program, as it is shown to the user.
#[derive(Clone, PartialEq, Eq, Debug)]
pub struct Frame {
    pub function: String,
    pub file: String,
    pub line: usize,
}

/// The functions and source lines of a program.
pub struct SymbolTable {
    pub functions: Vec<Function>,
    pub lines: Vec<Line>,
}

/// `f` holds the instruction at `addr`.
pub open spec fn covers(f: Function, addr: u64) -> bool {
    f.address <= addr < f.address + f.text_length
}

/// `functions[i]` is the first function that holds `addr`.
pub open spec fn is_function_at(functions: Seq<Function>, addr: u64, i: int) -> bool {
    &&& 0 <= i < functions.len()
    &&& covers(functions[i], addr)
    &&& forall|j: int| 0 <= j < i ==> !covers(#[trigger] functions[j], addr)
}

/// `lines[i]` is the line that `addr` belongs to: the last one to start at or
/// before `addr`, and among several that start together the first.
pub open spec fn is_line_at(lines: Seq<Line>, addr: u64, i: int) -> bool {
    &&& 0 <= i < lines.len()
    &&& lines[i].address <= addr
    &&& forall|j: int|
        0 <= j < lines.len() && (#[trigger] lines[j]).address <= addr ==> lines[j].address
            <= lines[i].address
    &&& forall|j: int| 0 <= j < i ==> (#[trigger] lines[j]).address != lines[i].address
}

/// `lines[i]` is the first line of `file` numbered `number` or higher.
pub open spec fn is_line_from(lines: Seq<Line>, file: Seq<char>, number: usize, i: int) -> bool {
    &&& 0 <= i < lines.len()
    &&& lines[i].file@ == file
    &&& lines[i].number >= number
    &&& forall|j: int|
        0 <= j < i ==> !((#[trigger] lines[j]).file@ == file && lines[j].number >= number)
}

/// `functions[i]` is the first function of `file` called `name`.
pub open spec fn is_function_named(
    functions: Seq<Function>,
    file: Seq<char>,
    name: Seq<char>,
    i: int,
) -> bool {
    &&& 0 <= i < functions.len()
    &&& functions[i].file@ == file
    &&& functions[i].name@ == name
    &&& forall|j: int|
        0 <= j < i ==> !((#[trigger] functions[j]).file@ == file && functions[j].name@ == name)
}

impl SymbolTable {
    /// The place of the function that holds `addr`, if any does.
    pub open spec fn function_at(&self, addr: u64) -> Option<int> {
        if exists|i: int| is_function_at(self.functions@, addr, i) {
            Some(choose|i: int| is_function_at(self.functions@, addr, i))
        } else {
            None
        }
    }

    /// The place of the line that `addr` belongs to, if any line starts at or
    /// before it.
    pub open spec fn line_at(&self, addr: u64) -> Option<int> {
        if exists|i: int| is_line_at(self.lines@, addr, i) {
            Some(choose|i: int| is_line_at(self.lines@, addr, i))
        } else {
            None
        }
    }

    /// The address of the first line of `file` numbered `number` or higher.
    pub open spec fn addr_for_line(&self, file: Seq<char>, number: usize) -> Option<u64> {
        if exists|i: int| is_line_from(self.lines@, file, number, i) {
            Some(self.lines@[choose|i: int| is_line_from(self.lines@, file, number, i)].address)
        } else {
            None
        }
    }

    /// The address of the first function of `file` called `name`.
    pub open spec fn addr_for_function(&self, file: Seq<char>, name: Seq<char>) -> Option<u64> {
        if exists|i: int| is_function_named(self.functions@, file, name, i) {
            Some(
                self.functions@[choose|i: int|
                    is_function_named(self.functions@, file, name, i)].address,
            )
        } else {
            None
        }
    }

    /// Every function of the table has a name, and every line a file.
    pub open spec fn named(&self) -> bool {
        &&& forall|i: int|
            0 <= i < self.functions@.len() ==> (#[trigger] self.functions@[i]).name@.len() > 0
        &&& forall|i: int|
            0 <= i < self.lines@.len() ==> (#[trigger] self.lines@[i]).file@.len() > 0
    }

    /// What is shown for `addr`: the function and the line, where both are known.
    pub open spec fn frame_at(&self, addr: u64) -> Option<Frame> {
        match (self.function_at(addr), self.line_at(addr)) {
            (Some(f), Some(l)) => Some(
                Frame {
                    function: self.functions@[f].name,
                    file: self.lines@[l].file,
                    line: self.lines@[l].number,
                },
            ),
            _ => None,
        }
    }

    /// A table of these functions and lines.
    pub fn new(functions: Vec<Function>, lines: Vec<Line>) -> (table: SymbolTable)
        ensures
            table.functions == functions,
            table.lines == lines,
    {
        SymbolTable { functions, lines }
    }

    fn find_function(&self, addr: u64) -> (found: Option<usize>)
        ensures
            found matches Some(i) ==> self.function_at(addr) == Some(i as int) && i
                < self.functions@.len(),
            found is None ==> self.function_at(addr) is None,
    {
        let mut i: usize = 0;
        while i < self.functions.len()
            invariant
                i <= self.functions.len(),
                forall|j: int| 0 <= j < i ==> !covers(#[trigger] self.functions@[j], addr),
            decreases self.functions.len() - i,
        {
            let f = &self.functions[i];
            if f.address <= addr && addr - f.address < f.text_length {
                proof {
                    lemma_one_function_at(self.functions@, addr, i as int);
                }
                return Some(i);
            }
            i += 1;
        }
        None
    }

    fn find_line(&self, addr: u64) -> (found: Option<usize>)
        ensures
            found matches Some(i) ==> self.line_at(addr) == Some(i as int) && i < self.lines@.len(),
            found is None ==> self.line_at(addr) is None,
    {
        let mut best: Option<usize> = None;
        let mut i: usize = 0;
        while i < self.lines.len()
            invariant
                i <= self.lines.len(),
                best matches Some(b) ==> b < i && is_line_at(
                    self.lines@.take(i as int),
                    addr,
                    b as int,
                ),
                best is None ==> forall|j: int|
                    0 <= j < i ==> (#[trigger] self.lines@[j]).address > addr,
            decreases self.lines.len() - i,
        {
            let here = self.lines[i].address;
            if here <= addr {
                let better = match best {
                    None => true,
                    Some(b) => self.lines[b].address < here,
                };
                if better {
                    best = Some(i);
                }
            }
            proof {
                let before = self.lines@.take(i as int);
                let after = self.lines@.take(i + 1);
                assert forall|j: int| 0 <= j < i implies after[j] == before[j] by {}
                if let Some(b) = best {
                    assert(is_line_at(after, addr, b as int)) by {
                        assert forall|j: int|
                            0 <= j < after.len() && (#[trigger] after[j]).address
                                <= addr implies after[j].address <= after[b as int].address by {
                            if j < i {
                                assert(before[j].address <= addr);
                            }
                        }
                        assert forall|j: int| 0 <= j < b implies (#[trigger] after[j]).address
                            != after[b as int].address by {
                            if b == i {
                                assert(before[j].address == after[j].address);
                            } else {
                                assert(before[j].address == after[j].address);
                            }
                        }
                    }
                }
            }
            i += 1;
        }
        proof {
            assert(self.lines@.take(i as int) =~= self.lines@);
            match best {
                Some(b) => {
                    lemma_one_line_at(self.lines@, addr, b as int);
                },
                None => {
                    assert forall|k: int| !is_line_at(self.lines@, addr, k) by {}
                },
            }
        }
        best
    }

    /// The name of the function that holds the instruction at `addr`.
    pub fn get_function_from_addr(&self, addr: u64) -> (name: Option<String>)
        ensures
            name == match self.function_at(addr) {
                Some(i) => Some(self.functions@[i].name),
                None => None,
            },
    {
        match self.find_function(addr) {
            Some(i) => Some(self.functions[i].name.clone()),
            None => None,
        }
    }

    /// The source line that the instruction at `addr` belongs to.
    pub fn get_line_from_addr(&self, addr: u64) -> (line: Option<Line>)
        ensures
            line == match self.line_at(addr) {
                Some(i) => Some(self.lines@[i]),
                None => None,
            },
    {
        match self.find_line(addr) {
            Some(i) => {
                let found = &self.lines[i];
                Some(
                    Line {
                        file: found.file.clone(),
                        number: found.number,
                        address: found.address,
                    },
                )
            },
            None => None,
        }
    }

    /// The function and line to show for `addr`.
    pub fn get_frame_from_addr(&self, addr: u64) -> (frame: Option<Frame>)
        ensures
            frame == self.frame_at(addr),
    {
        match (self.find_function(addr), self.find_line(addr)) {
            (Some(f), Some(l)) => Some(
                Frame {
                    function: self.functions[f].name.clone(),
                    file: self.lines[l].file.clone(),
                    line: self.lines[l].number,
                },
            ),
            _ => None,
        }
    }

    /// The address of the first line of `file` numbered `number` or higher.
    pub fn get_addr_for_line(&self, file: &str, number: usize) -> (addr: Option<u64>)
        ensures
            addr == self.addr_for_line(file@, number),
    {
        let wanted = file.to_owned();
        let mut i: usize = 0;
        while i < self.lines.len()
            invariant
                i <= self.lines.len(),
                wanted@ == file@,
                forall|j: int|
                    0 <= j < i ==> !((#[trigger] self.lines@[j]).file@ == file@
                        && self.lines@[j].number >= number),
            decreases self.lines.len() - i,
        {
            let line = &self.lines[i];
            if line.file == wanted && line.number >= number {
                proof {
                    assert(is_line_from(self.lines@, file@, number, i as int));
                    lemma_one_line_from(self.lines@, file@, number, i as int);
                }
                return Some(line.address);
            }
            i += 1;
        }
        None
    }

    /// The address of the first function of `file` called `name`.
    pub fn get_addr_for_function(&self, file: &str, name: &str) -> (addr: Option<u64>)
        ensures
            addr == self.addr_for_function(file@, name@),
    {
        let wanted_file = file.to_owned();
        let wanted_name = name.to_owned();
        let mut i: usize = 0;
        while i < self.functions.len()
            invariant
                i <= self.functions.len(),
                wanted_file@ == file@,
                wanted_name@ == name@,
                forall|j: int|
                    0 <= j < i ==> !((#[trigger] self.functions@[j]).file@ == file@
                        && self.functions@[j].name@ == name@),
            decreases self.functions.len() - i,
        {
            let f = &self.functions[i];
            if f.file == wanted_file && f.name == wanted_name {
                proof {
                    assert(is_function_named(self.functions@, file@, name@, i as int));
                    lemma_one_function_named(self.functions@, file@, name@, i as int);
                }
                return Some(f.address);
            }
            i += 1;
        }
        None
    }
}

/// In a table where every function has a name and every line a file, what is
/// shown for an address names a function and a file.
pub proof fn lemma_frame_named(symbols: SymbolTable, addr: u64)
    requires
        symbols.named(),
        symbols.frame_at(addr) is Some,
    ensures
        symbols.frame_at(addr).unwrap().function@.len() > 0,
        symbols.frame_at(addr).unwrap().file@.len() > 0,
{
    let f = choose|i: int| is_function_at(symbols.functions@, addr, i);
    let l = choose|i: int| is_line_at(symbols.lines@, addr, i);
    assert(is_function_at(symbols.functions@, addr, f));
    assert(is_line_at(symbols.lines@, addr, l));
}

/// At most one place is that of the first function that holds `addr`.
pub proof fn lemma_one_function_at(functions: Seq<Function>, addr: u64, i: int)
    requires
        is_function_at(functions, addr, i),
    ensures
        forall|k: int| is_function_at(functions, addr, k) ==> k == i,
        (choose|k: int| is_function_at(functions, addr, k)) == i,
{
    assert forall|k: int| is_function_at(functions, addr, k) implies k == i by {
        if k < i {
            assert(!covers(functions[k], addr));
        }
        if i < k {
            assert(!covers(functions[i], addr));
        }
    }
}

/// At most one place is that of the first line of `file` from `number` on.
pub proof fn lemma_one_line_from(lines: Seq<Line>, file: Seq<char>, number: usize, i: int)
    requires
        is_line_from(lines, file, number, i),
    ensures
        forall|k: int| is_line_from(lines, file, number, k) ==> k == i,
        (choose|k: int| is_line_from(lines, file, number, k)) == i,
{
    assert forall|k: int| is_line_from(lines, file, number, k) implies k == i by {
        if k < i {
            assert(!(lines[k].file@ == file && lines[k].number >= number));
        }
        if i < k {
            assert(!(lines[i].file@ == file && lines[i].number >= number));
        }
    }
}

/// At most one place is that of the first function of `file` called `name`.
pub proof fn lemma_one_function_named(
    functions: Seq<Function>,
    file: Seq<char>,
    name: Seq<char>,
    i: int,
)
    requires
        is_function_named(functions, file, name, i),
    ensures
        forall|k: int| is_function_named(functions, file, name, k) ==> k == i,
        (choose|k: int| is_function_named(functions, file, name, k)) == i,
{
    assert forall|k: int| is_function_named(functions, file, name, k) implies k == i by {
        if k < i {
            assert(!(functions[k].file@ == file && functions[k].name@ == name));
        }
        if i < k {
            assert(!(functions[i].file@ == file && functions[i].name@ == name));
        }
    }
}

/// At most one place is that of the line that `addr` belongs to.
pub proof fn lemma_one_line_at(lines: Seq<Line>, addr: u64, i: int)
    requires
        is_line_at(lines, addr, i),
    ensures
        forall|k: int| is_line_at(lines, addr, k) ==> k == i,
        (choose|k: int| is_line_at(lines, addr, k)) == i,
{
    assert forall|k: int| is_line_at(lines, addr, k) implies k == i by {
        assert(lines[k].address <= lines[i].address);
        assert(lines[i].address <= lines[k].address);
        if k < i {
            assert(lines[k].address != lines[i].address);
        }
        if i < k {
            assert(lines[i].address != lines[k].address);
        }
    }
}

} // verus!
