use vstd::prelude::*;
use crate::error::ErrorKind;
use crate::model::{ends_within, halts, outcome, run, step, Config, Machine, Status};

verus! {

/// The tape machine: a tape of cells, a cursor, and a stack of loop addresses.
/// Its state outlives each call of [`Brainfuck::interpret`].
#[derive(Debug)]
pub struct Brainfuck {
    data: Vec<u8>,
    data_pointer: usize,
    stack: Vec<usize>,
    stack_pointer: usize,
}

impl View for Brainfuck {
    type V = Machine;

    closed spec fn view(&self) -> Machine {
        Machine {
            tape: self.data@,
            cursor: self.data_pointer as nat,
            stack: Seq::new(self.stack@.len(), |i: int| self.stack@[i] as nat),
            depth: self.stack_pointer as nat,
        }
    }
}

/// The characters of `source`, in order.
fn tokenize(source: &str) -> (tokens: Vec<char>)
    ensures
        tokens@ == source@,
{
    let mut tokens: Vec<char> = Vec::new();
    for c in it: source.chars()
        invariant
            tokens@ == it.seq().take(it.index() as int),
            it.seq() == source@,
    {
        tokens.push(c);
    }
    tokens
}

/// Appends one character to `text`.
///
/// Calls `String::push`, which appends the given character to the end of the
/// string; the contract says no more than that.
#[verifier::external_body]
fn push_char(text: &mut String, c: char)
    ensures
        final(text)@ == old(text)@.push(c),
{
    text.push(c);
}

impl Brainfuck {
    /// Every address on the loop stack has a successor that fits in a machine
    /// word. Each operation of the machine keeps this.
    pub closed spec fn addresses_bounded(&self) -> bool {
        forall|i: int| 0 <= i < self.stack@.len() ==> self.stack@[i] < usize::MAX
    }

    /// The state is one that the machine's operations can work on: the cursor
    /// is on the tape, the depth is within the stack, and the stored addresses
    /// are bounded.
    pub open spec fn wf(&self) -> bool {
        &&& self@.valid()
        &&& self.addresses_bounded()
    }

    /// A machine with a tape of `tape_capacity` zero cells and a loop stack of
    /// `stack_capacity` slots, none in use.
    pub fn new(tape_capacity: usize, stack_capacity: usize) -> (machine: Brainfuck)
        requires
            tape_capacity > 0,
        ensures
            machine.wf(),
            machine@ == Machine::fresh(tape_capacity as nat, stack_capacity as nat),
    {
        let machine = Brainfuck {
            data: vec![0u8; tape_capacity],
            data_pointer: 0usize,
            stack: vec![0usize; stack_capacity],
            stack_pointer: 0usize,
        };
        assert(machine@.tape =~= Machine::fresh(tape_capacity as nat, stack_capacity as nat).tape);
        assert(machine@.stack =~= Machine::fresh(tape_capacity as nat, stack_capacity as nat).stack);
        machine
    }

    /// The cells of the tape.
    pub fn data(&self) -> (tape: &Vec<u8>)
        ensures
            tape@ == self@.tape,
    {
        &self.data
    }

    /// The index of the cell under the cursor.
    pub fn data_pointer(&self) -> (cursor: usize)
        ensures
            cursor == self@.cursor,
    {
        self.data_pointer
    }

    /// The number of loops that are open.
    pub fn stack_pointer(&self) -> (depth: usize)
        ensures
            depth == self@.depth,
    {
        self.stack_pointer
    }

    /// Executes the instruction at `ip`, and returns the index of the next one.
    fn execute(&mut self, tokens: &Vec<char>, ip: usize, output: &mut String) -> (result: Result<usize, ErrorKind>)
        requires
            old(self).wf(),
            ip < tokens@.len(),
        ensures
            final(self).wf(),
            match step(tokens@, Config { machine: old(self)@, ip: ip as nat, output: old(output)@ }) {
                Ok(next) => result matches Ok(next_ip) && next == (Config {
                    machine: final(self)@,
                    ip: next_ip as nat,
                    output: final(output)@,
                }),
                Err(e) => result == Err::<usize, ErrorKind>(e) && final(self)@ == old(self)@,
            },
    {
        assert(ip < tokens.len());
        assert(self.data_pointer < self.data.len());
        let c = tokens[ip];
        if c == '+' {
            let value = self.data[self.data_pointer].wrapping_add(1);
            self.data.set(self.data_pointer, value);
        } else if c == '-' {
            let value = self.data[self.data_pointer].wrapping_sub(1);
            self.data.set(self.data_pointer, value);
        } else if c == '>' {
            if self.data_pointer + 1 >= self.data.len() {
                return Err(ErrorKind::CursorOverflow);
            }
            self.data_pointer += 1;
        } else if c == '<' {
            if self.data_pointer == 0 {
                return Err(ErrorKind::CursorUnderflow);
            }
            self.data_pointer -= 1;
        } else if c == '.' {
            push_char(output, self.data[self.data_pointer] as char);
        } else if c == '[' {
            if self.stack_pointer >= self.stack.len() {
                return Err(ErrorKind::LoopStackOverflow);
            }
            self.stack.set(self.stack_pointer, ip);
            self.stack_pointer += 1;
            assert(final(self)@.stack =~= old(self)@.stack.update(old(self)@.depth as int, ip as nat));
        } else if c == ']' {
            if self.stack_pointer == 0 {
                return Err(ErrorKind::UnmatchedBracket);
            }
            if self.data[self.data_pointer] != 0 {
                return Ok(self.stack[self.stack_pointer - 1] + 1);
            }
            self.stack_pointer -= 1;
        }
        Ok(ip + 1)
    }

    /// Runs `source` on the machine, starting from the state that the last
    /// call left, and returns what the program emitted or the first error.
    ///
    /// Characters that are no instruction are skipped. After an error the
    /// machine keeps the state in which the failing instruction found it.
    ///
    /// The contract speaks of programs whose run ends. A program that loops
    /// for ever keeps this function running, and no caller can prove that it
    /// may call it on one.
    pub fn interpret(&mut self, source: &str) -> (result: Result<String, ErrorKind>)
        requires
            old(self).wf(),
            halts(source@, Config::start(old(self)@)),
        ensures
            final(self).wf(),
            match outcome(source@, Config::start(old(self)@)) {
                Status::Done(end) => result matches Ok(text) && text@ == end.output && final(self)@
                    == end.machine,
                Status::Failed(e, machine) => result matches Err(err) && err == e && final(self)@
                    == machine,
                Status::Running(_) => false,
            },
    {
        let tokens = tokenize(source);
        let mut output = String::new();
        let mut ip: usize = 0;
        let ghost goal = outcome(source@, Config::start(old(self)@));
        let ghost mut fuel: nat = choose|n: nat| ends_within(source@, Config::start(old(self)@), n);
        while ip < tokens.len()
            invariant
                self.wf(),
                tokens@ == source@,
                goal == outcome(source@, Config::start(old(self)@)),
                ends_within(source@, Config { machine: self@, ip: ip as nat, output: output@ }, fuel),
                run(source@, Config { machine: self@, ip: ip as nat, output: output@ }, fuel) == goal,
            decreases fuel,
        {
            let ghost here = Config { machine: self@, ip: ip as nat, output: output@ };
            assert(fuel > 0);
            assert(ip < source@.len());
            match self.execute(&tokens, ip, &mut output) {
                Ok(next_ip) => {
                    ip = next_ip;
                    proof {
                        fuel = (fuel - 1) as nat;
                    }
                },
                Err(e) => {
                    assert(run(source@, here, fuel) == Status::Failed(e, here.machine));
                    return Err(e);
                },
            }
        }
        Ok(output)
    }

    /// Returns the machine to its initial state, with the capacities it has:
    /// every cell and every stack slot zero, cursor and depth zero. The result
    /// is the machine itself, so that a call of `interpret` can follow.
    pub fn reset(&mut self) -> (machine: &mut Brainfuck)
        requires
            old(self).wf(),
        ensures
            machine.wf(),
            machine@ == old(self)@.cleared(),
            *final(self) == *final(machine),
    {
        let mut i: usize = 0;
        while i < self.data.len()
            invariant
                self.data@.len() == old(self).data@.len(),
                self.stack == old(self).stack,
                forall|k: int| 0 <= k < i ==> self.data@[k] == 0,
            decreases self.data@.len() - i,
        {
            self.data.set(i, 0);
            i += 1;
        }
        let mut j: usize = 0;
        while j < self.stack.len()
            invariant
                self.data@.len() == old(self).data@.len(),
                self.stack@.len() == old(self).stack@.len(),
                forall|k: int| 0 <= k < self.data@.len() ==> self.data@[k] == 0,
                forall|k: int| 0 <= k < j ==> self.stack@[k] == 0,
            decreases self.stack@.len() - j,
        {
            self.stack.set(j, 0);
            j += 1;
        }
        self.data_pointer = 0;
        self.stack_pointer = 0;
        assert(self@.tape =~= old(self)@.cleared().tape);
        assert(self@.stack =~= old(self)@.cleared().stack);
        self
    }
}

impl Default for Brainfuck {
    /// A machine with a tape of 100 cells and room for 10 nested loops.
    fn default() -> (machine: Brainfuck)
        ensures
            machine.wf(),
            machine@ == Machine::fresh(100, 10),
    {
        Brainfuck::new(100, 10)
    }
}

} // verus!
