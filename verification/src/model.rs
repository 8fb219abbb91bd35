use vstd::prelude::*;
use crate::error::ErrorKind;

verus! {

/// The persistent state of the machine, as mathematical values.
pub struct Machine {
    /// The cells of the tape, in order.
    pub tape: Seq<u8>,
    /// The index of the current cell.
    pub cursor: nat,
    /// Every slot of the loop stack, used or not.
    pub stack: Seq<nat>,
    /// The number of slots of `stack` in use, counted from slot 0.
    pub depth: nat,
}

impl Machine {
    /// The cursor points into the tape and the depth does not exceed the stack.
    pub open spec fn valid(self) -> bool {
        &&& self.cursor < self.tape.len()
        &&& self.depth <= self.stack.len()
    }

    /// The initial machine for the given capacities: all cells and slots zero,
    /// cursor and depth zero.
    pub open spec fn fresh(tape_capacity: nat, stack_capacity: nat) -> Machine {
        Machine {
            tape: Seq::new(tape_capacity, |i: int| 0u8),
            cursor: 0,
            stack: Seq::new(stack_capacity, |i: int| 0nat),
            depth: 0,
        }
    }

    /// The initial machine with the capacities of this one.
    pub open spec fn cleared(self) -> Machine {
        Machine::fresh(self.tape.len(), self.stack.len())
    }

    /// The value of the cell under the cursor.
    pub open spec fn current(self) -> u8 {
        self.tape[self.cursor as int]
    }

    /// This machine with the cell under the cursor replaced.
    pub open spec fn with_current(self, value: u8) -> Machine {
        Machine { tape: self.tape.update(self.cursor as int, value), ..self }
    }
}

/// The cell value that follows `value` under wrapping 8-bit arithmetic.
pub open spec fn wrap_inc(value: u8) -> u8 {
    if value == 255 { 0 } else { (value + 1) as u8 }
}

/// The cell value that precedes `value` under wrapping 8-bit arithmetic.
pub open spec fn wrap_dec(value: u8) -> u8 {
    if value == 0 { 255 } else { (value - 1) as u8 }
}

/// A machine in the middle of a run: its state, the index of the next
/// instruction, and the characters emitted so far.
pub struct Config {
    pub machine: Machine,
    pub ip: nat,
    pub output: Seq<char>,
}

impl Config {
    /// The configuration in which a run on `machine` begins.
    pub open spec fn start(machine: Machine) -> Config {
        Config { machine, ip: 0, output: Seq::empty() }
    }

    /// The configuration after an instruction that only changed the machine.
    pub open spec fn advance(self, machine: Machine) -> Config {
        Config { machine, ip: self.ip + 1, output: self.output }
    }
}

/// The characters that are instructions.
pub open spec fn is_instruction(op: char) -> bool {
    op == '+' || op == '-' || op == '>' || op == '<' || op == '.' || op == '[' || op == ']'
}

/// The effect of executing the instruction at `c.ip`: the next configuration,
/// or the error that aborts the run and leaves the machine as it is in `c`.
pub open spec fn step(source: Seq<char>, c: Config) -> Result<Config, ErrorKind>
    recommends
        c.ip < source.len(),
        c.machine.valid(),
{
    let m = c.machine;
    let op = source[c.ip as int];
    if op == '+' {
        Ok(c.advance(m.with_current(wrap_inc(m.current()))))
    } else if op == '-' {
        Ok(c.advance(m.with_current(wrap_dec(m.current()))))
    } else if op == '>' {
        if m.cursor + 1 >= m.tape.len() {
            Err(ErrorKind::CursorOverflow)
        } else {
            Ok(c.advance(Machine { cursor: m.cursor + 1, ..m }))
        }
    } else if op == '<' {
        if m.cursor == 0 {
            Err(ErrorKind::CursorUnderflow)
        } else {
            Ok(c.advance(Machine { cursor: (m.cursor - 1) as nat, ..m }))
        }
    } else if op == '.' {
        Ok(Config { machine: m, ip: c.ip + 1, output: c.output.push(m.current() as char) })
    } else if op == '[' {
        if m.depth >= m.stack.len() {
            Err(ErrorKind::LoopStackOverflow)
        } else {
            Ok(c.advance(Machine { stack: m.stack.update(m.depth as int, c.ip), depth: m.depth + 1, ..m }))
        }
    } else if op == ']' {
        if m.depth == 0 {
            Err(ErrorKind::UnmatchedBracket)
        } else if m.current() != 0 {
            Ok(Config { machine: m, ip: m.stack[m.depth - 1] + 1, output: c.output })
        } else {
            Ok(c.advance(Machine { depth: (m.depth - 1) as nat, ..m }))
        }
    } else {
        Ok(c.advance(m))
    }
}

/// Where a run stands after a bounded number of instructions.
pub enum Status {
    /// The bound was reached before the run ended; the configuration reached.
    Running(Config),
    /// The instruction pointer left the source; the final configuration.
    Done(Config),
    /// An instruction failed; the error, and the machine as the failing
    /// instruction found it.
    Failed(ErrorKind, Machine),
}

/// The status of the run of `source` from `c` after at most `n` instructions.
pub open spec fn run(source: Seq<char>, c: Config, n: nat) -> Status
    decreases n,
{
    if c.ip >= source.len() {
        Status::Done(c)
    } else if n == 0 {
        Status::Running(c)
    } else {
        match step(source, c) {
            Ok(next) => run(source, next, (n - 1) as nat),
            Err(e) => Status::Failed(e, c.machine),
        }
    }
}

/// The run of `source` from `c` ends within `n` instructions.
pub open spec fn ends_within(source: Seq<char>, c: Config, n: nat) -> bool {
    !(run(source, c, n) is Running)
}

/// The run of `source` from `c` ends after finitely many instructions.
pub open spec fn halts(source: Seq<char>, c: Config) -> bool {
    exists|n: nat| ends_within(source, c, n)
}

/// How the run of `source` from `c` ends, where it does end.
pub open spec fn outcome(source: Seq<char>, c: Config) -> Status
    recommends
        halts(source, c),
{
    run(source, c, choose|n: nat| ends_within(source, c, n))
}

/// A run that has ended within `n` instructions has the same status for every
/// larger bound.
pub proof fn run_stable(source: Seq<char>, c: Config, n: nat, m: nat)
    requires
        ends_within(source, c, n),
        n <= m,
    ensures
        run(source, c, m) == run(source, c, n),
    decreases n,
{
    if c.ip < source.len() && n > 0 {
        if let Ok(next) = step(source, c) {
            run_stable(source, next, (n - 1) as nat, (m - 1) as nat);
        }
    }
}

/// Any bound within which the run ends gives its outcome.
pub proof fn outcome_by_bound(source: Seq<char>, c: Config, n: nat)
    requires
        ends_within(source, c, n),
    ensures
        halts(source, c),
        outcome(source, c) == run(source, c, n),
{
    let k = choose|k: nat| ends_within(source, c, k);
    if k <= n {
        run_stable(source, c, k, n);
    } else {
        run_stable(source, c, n, k);
    }
}

/// Where the run from `c` reaches, after `steps` instructions, the status that
/// the run from `d` has, and the run from `d` ends, both end in the same way.
pub proof fn outcome_transfers(source: Seq<char>, c: Config, d: Config, steps: nat, n: nat)
    requires
        ends_within(source, d, n),
        run(source, c, n + steps) == run(source, d, n),
    ensures
        halts(source, c),
        halts(source, d),
        outcome(source, c) == outcome(source, d),
{
    outcome_by_bound(source, d, n);
    outcome_by_bound(source, c, n + steps);
}

} // verus!
