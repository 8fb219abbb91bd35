use vstd::prelude::*;
use crate::error::ErrorKind;
use crate::model::{ends_within, halts, is_instruction, outcome, run, step};
use crate::model::{outcome_by_bound, outcome_transfers, run_stable};
use crate::model::{wrap_dec, wrap_inc, Config, Machine, Status};

verus! {

/// The capacities of `after` are those of `before`, and `after` is valid.
pub open spec fn keeps_shape(before: Machine, after: Machine) -> bool {
    &&& after.valid()
    &&& after.tape.len() == before.tape.len()
    &&& after.stack.len() == before.stack.len()
}

/// The machine that a status holds.
pub open spec fn machine_of(status: Status) -> Machine {
    match status {
        Status::Running(c) => c.machine,
        Status::Done(c) => c.machine,
        Status::Failed(_, machine) => machine,
    }
}

/// However far a run has gone and however it ends, the tape and the loop stack
/// have the lengths they began with, the cursor is on the tape, and the depth
/// is within the stack.
pub proof fn run_keeps_shape(source: Seq<char>, c: Config, n: nat)
    requires
        c.machine.valid(),
    ensures
        keeps_shape(c.machine, machine_of(run(source, c, n))),
    decreases n,
{
    if c.ip < source.len() && n > 0 {
        if let Ok(next) = step(source, c) {
            run_keeps_shape(source, next, (n - 1) as nat);
        }
    }
}

/// A character that is no instruction is skipped: the machine and the output
/// stay as they are.
pub proof fn other_characters_skip(source: Seq<char>, c: Config)
    requires
        c.ip < source.len(),
        !is_instruction(source[c.ip as int]),
    ensures
        step(source, c) == Ok::<Config, ErrorKind>(skip(c, 1)),
{
}

/// A run that ends is made of its first instruction and the run that follows:
/// where the instruction succeeds, the run ends as the run from the next
/// configuration does; where it fails, the run ends in that error.
pub proof fn outcome_after_step(source: Seq<char>, c: Config)
    requires
        halts(source, c),
        c.ip < source.len(),
    ensures
        match step(source, c) {
            Ok(next) => halts(source, next) && outcome(source, next) == outcome(source, c),
            Err(e) => outcome(source, c) == Status::Failed(e, c.machine),
        },
{
    let k = choose|k: nat| ends_within(source, c, k);
    assert(k > 0);
    if let Ok(next) = step(source, c) {
        assert(run(source, c, k) == run(source, next, (k - 1) as nat));
        outcome_by_bound(source, next, (k - 1) as nat);
    }
}

/// No `]` occurs in `source`.
pub open spec fn loop_free(source: Seq<char>) -> bool {
    forall|i: int| 0 <= i < source.len() ==> source[i] != ']'
}

/// A program without `]` ends, from `c`, within what is left of it.
proof fn loop_free_from(source: Seq<char>, c: Config)
    requires
        loop_free(source),
        c.ip <= source.len(),
    ensures
        ends_within(source, c, (source.len() - c.ip) as nat),
    decreases source.len() - c.ip,
{
    if c.ip < source.len() {
        if let Ok(next) = step(source, c) {
            loop_free_from(source, next);
        }
    }
}

/// A program without `]` never goes back: from wherever it starts, its run
/// ends within as many instructions as the program is long.
pub proof fn loop_free_halts(source: Seq<char>, c: Config)
    requires
        loop_free(source),
    ensures
        ends_within(source, c, source.len()),
        halts(source, c),
{
    if c.ip <= source.len() {
        loop_free_from(source, c);
        run_stable(source, c, (source.len() - c.ip) as nat, source.len());
    }
}

/// The number of occurrences of `op` in `source`.
pub open spec fn count(source: Seq<char>, op: char) -> nat
    decreases source.len(),
{
    if source.len() == 0 {
        0
    } else {
        count(source.drop_first(), op) + if source[0] == op { 1nat } else { 0nat }
    }
}

/// The cell value `delta` increments after `value` (decrements, where `delta`
/// is negative) under wrapping 8-bit arithmetic.
pub open spec fn shifted(value: u8, delta: int) -> u8 {
    ((value + delta) % 256) as u8
}

/// `+` and `-` undo each other on every cell value, 0 and 255 included.
pub proof fn increment_decrement_inverse(value: u8)
    ensures
        wrap_dec(wrap_inc(value)) == value,
        wrap_inc(wrap_dec(value)) == value,
        wrap_inc(value) == shifted(value, 1),
        wrap_dec(value) == shifted(value, -1),
{
}

/// Every character of `source` is `+` or `-`.
pub open spec fn only_arithmetic(source: Seq<char>) -> bool {
    forall|i: int| 0 <= i < source.len() ==> source[i] == '+' || source[i] == '-'
}

/// The configuration in which a run of `source` from `c` ends where all that is
/// left of `source` is `+` and `-`.
pub open spec fn after_arithmetic(source: Seq<char>, c: Config) -> Config {
    let rest = source.subrange(c.ip as int, source.len() as int);
    Config {
        machine: c.machine.with_current(
            shifted(c.machine.current(), count(rest, '+') - count(rest, '-')),
        ),
        ip: source.len(),
        output: c.output,
    }
}

/// What is left of a program of `+` and `-` takes one instruction for each
/// character and ends in `after_arithmetic`.
proof fn arithmetic_from(source: Seq<char>, c: Config)
    requires
        only_arithmetic(source),
        c.machine.valid(),
        c.ip <= source.len(),
    ensures
        run(source, c, (source.len() - c.ip) as nat) == Status::Done(after_arithmetic(source, c)),
    decreases source.len() - c.ip,
{
    let m = c.machine;
    let rest = source.subrange(c.ip as int, source.len() as int);
    if c.ip == source.len() {
        assert(rest.len() == 0);
        assert(m.with_current(shifted(m.current(), 0)).tape =~= m.tape);
    } else {
        let next = step(source, c)->Ok_0;
        let tail = source.subrange(next.ip as int, source.len() as int);
        assert(rest.drop_first() =~= tail);
        assert(rest[0] == source[c.ip as int]);
        arithmetic_from(source, next);
        assert(after_arithmetic(source, next).machine.tape =~= after_arithmetic(source, c).machine.tape);
    }
}

/// Any interleaving of `+` and `-` ends without error, emits nothing, and
/// changes only the cell under the cursor: by the number of `+` less the number
/// of `-`, modulo 256.
pub proof fn arithmetic_nets(source: Seq<char>, m: Machine)
    requires
        m.valid(),
        only_arithmetic(source),
    ensures
        halts(source, Config::start(m)),
        outcome(source, Config::start(m)) == Status::Done(
            Config {
                machine: m.with_current(shifted(m.current(), count(source, '+') - count(source, '-'))),
                ip: source.len(),
                output: Seq::empty(),
            },
        ),
{
    let c = Config::start(m);
    arithmetic_from(source, c);
    assert(source.subrange(0, source.len() as int) =~= source);
    outcome_by_bound(source, c, source.len());
}

/// Every character of `source` is `op`.
pub open spec fn only(source: Seq<char>, op: char) -> bool {
    forall|i: int| 0 <= i < source.len() ==> source[i] == op
}

/// A program of one character alone holds it as often as it is long, and no
/// other character.
proof fn count_of_only(source: Seq<char>, op: char, other: char)
    requires
        only(source, op),
        other != op,
    ensures
        count(source, op) == source.len(),
        count(source, other) == 0,
    decreases source.len(),
{
    if source.len() > 0 {
        count_of_only(source.drop_first(), op, other);
    }
}

/// A run of `+` alone adds its length to the cell under the cursor, modulo
/// 256, and changes nothing else.
pub proof fn increments_add(source: Seq<char>, m: Machine)
    requires
        m.valid(),
        only(source, '+'),
    ensures
        halts(source, Config::start(m)),
        outcome(source, Config::start(m)) == Status::Done(
            Config {
                machine: m.with_current(((m.current() + source.len()) % 256) as u8),
                ip: source.len(),
                output: Seq::empty(),
            },
        ),
{
    count_of_only(source, '+', '-');
    arithmetic_nets(source, m);
}

/// A run of `-` alone takes its length from the cell under the cursor, modulo
/// 256, and changes nothing else: from a zero cell, `n` of them leave
/// `(256 - n) mod 256`.
pub proof fn decrements_subtract(source: Seq<char>, m: Machine)
    requires
        m.valid(),
        only(source, '-'),
    ensures
        halts(source, Config::start(m)),
        outcome(source, Config::start(m)) == Status::Done(
            Config {
                machine: m.with_current(((m.current() - source.len()) % 256) as u8),
                ip: source.len(),
                output: Seq::empty(),
            },
        ),
        m.current() == 0 ==> (m.current() - source.len()) % 256 == (256 - source.len() % 256) % 256,
{
    count_of_only(source, '-', '+');
    arithmetic_nets(source, m);
}

/// `c` with its instruction pointer moved on by `by`, nothing else changed.
pub open spec fn skip(c: Config, by: nat) -> Config {
    Config { ip: c.ip + by, ..c }
}

/// `>` directly followed by `<`, with the cursor not on the last cell, leaves
/// the machine as it was: the run goes on as if the two were not there.
pub proof fn right_left_cancel(source: Seq<char>, c: Config, n: nat)
    requires
        c.machine.valid(),
        c.machine.cursor + 1 < c.machine.tape.len(),
        c.ip + 1 < source.len(),
        source[c.ip as int] == '>',
        source[(c.ip + 1) as int] == '<',
    ensures
        run(source, c, n + 2) == run(source, skip(c, 2), n),
        ends_within(source, skip(c, 2), n) ==> halts(source, c) && outcome(source, c) == outcome(
            source,
            skip(c, 2),
        ),
{
    let mid = step(source, c)->Ok_0;
    assert(run(source, c, n + 2) == run(source, mid, n + 1));
    assert(step(source, mid) == Ok::<Config, ErrorKind>(skip(c, 2)));
    assert(run(source, mid, n + 1) == run(source, skip(c, 2), n));
    if ends_within(source, skip(c, 2), n) {
        outcome_transfers(source, c, skip(c, 2), 2, n);
    }
}

/// `<` directly followed by `>`, with the cursor not on cell 0, leaves the
/// machine as it was: the run goes on as if the two were not there.
pub proof fn left_right_cancel(source: Seq<char>, c: Config, n: nat)
    requires
        c.machine.valid(),
        c.machine.cursor > 0,
        c.ip + 1 < source.len(),
        source[c.ip as int] == '<',
        source[(c.ip + 1) as int] == '>',
    ensures
        run(source, c, n + 2) == run(source, skip(c, 2), n),
        ends_within(source, skip(c, 2), n) ==> halts(source, c) && outcome(source, c) == outcome(
            source,
            skip(c, 2),
        ),
{
    let mid = step(source, c)->Ok_0;
    assert(run(source, c, n + 2) == run(source, mid, n + 1));
    assert(step(source, mid) == Ok::<Config, ErrorKind>(skip(c, 2)));
    assert(run(source, mid, n + 1) == run(source, skip(c, 2), n));
    if ends_within(source, skip(c, 2), n) {
        outcome_transfers(source, c, skip(c, 2), 2, n);
    }
}

/// How often the body of a loop that decrements its cell runs before the cell
/// is zero: the body runs before the first test, so from 0 it runs 256 times.
pub open spec fn countdown(value: u8) -> nat {
    if value == 0 { 256 } else { value as nat }
}

/// The configuration in which the loop `[-]` at `c.ip` leaves `c`: the cell
/// under the cursor zero, the loop closed again, its address left in the slot
/// it used.
pub open spec fn after_clear(c: Config) -> Config {
    let m = c.machine;
    Config {
        machine: Machine {
            tape: m.tape.update(m.cursor as int, 0u8),
            stack: m.stack.update(m.depth as int, c.ip),
            ..m
        },
        ip: c.ip + 3,
        output: c.output,
    }
}

/// `[-]` stands in `source` at `at`.
pub open spec fn clear_loop_at(source: Seq<char>, at: nat) -> bool {
    &&& at + 2 < source.len()
    &&& source[at as int] == '['
    &&& source[(at + 1) as int] == '-'
    &&& source[(at + 2) as int] == ']'
}

/// From the body of the loop `[-]` at `at`, entered with the cell under the
/// cursor at any value, `countdown` rounds of two instructions leave the loop
/// with the cell zero.
proof fn countdown_from(source: Seq<char>, at: nat, b: Config, n: nat)
    requires
        clear_loop_at(source, at),
        b.ip == at + 1,
        b.machine.valid(),
        b.machine.depth >= 1,
        b.machine.stack[b.machine.depth - 1] == at,
    ensures
        run(source, b, n + 2 * countdown(b.machine.current())) == run(
            source,
            Config {
                machine: Machine {
                    depth: (b.machine.depth - 1) as nat,
                    ..b.machine.with_current(0)
                },
                ip: at + 3,
                output: b.output,
            },
            n,
        ),
    decreases countdown(b.machine.current()),
{
    let m = b.machine;
    let k = countdown(m.current());
    let b1 = step(source, b)->Ok_0;
    assert(run(source, b, n + 2 * k) == run(source, b1, (n + 2 * k - 1) as nat));
    let b2 = step(source, b1)->Ok_0;
    assert(run(source, b1, (n + 2 * k - 1) as nat) == run(source, b2, (n + 2 * k - 2) as nat));
    if wrap_dec(m.current()) != 0 {
        countdown_from(source, at, b2, n);
        assert(b2.machine.with_current(0).tape =~= m.with_current(0).tape);
    } else {
        assert(b1.machine.tape =~= m.with_current(0).tape);
    }
}

/// The loop `[-]` ends whatever the cell under the cursor holds, after
/// `countdown` rounds, and leaves that cell zero and every other cell, the
/// cursor and the depth as they were; the run goes on behind it.
pub proof fn clear_loop_ends(source: Seq<char>, c: Config, n: nat)
    requires
        c.machine.valid(),
        c.machine.depth < c.machine.stack.len(),
        clear_loop_at(source, c.ip),
    ensures
        run(source, c, n + 1 + 2 * countdown(c.machine.current())) == run(
            source,
            after_clear(c),
            n,
        ),
        after_clear(c).machine.current() == 0,
        ends_within(source, after_clear(c), n) ==> halts(source, c) && outcome(source, c)
            == outcome(source, after_clear(c)),
{
    let k = countdown(c.machine.current());
    let b = step(source, c)->Ok_0;
    assert(run(source, c, n + 1 + 2 * k) == run(source, b, n + 2 * k));
    countdown_from(source, c.ip, b, n);
    assert(b.machine.with_current(0).tape =~= after_clear(c).machine.tape);
    if ends_within(source, after_clear(c), n) {
        outcome_transfers(source, c, after_clear(c), 1 + 2 * k, n);
    }
}

/// The program `[-]` alone, on a machine with a free stack slot, ends without
/// error and with the cell under the cursor zero.
pub proof fn clear_program_zeroes(m: Machine)
    requires
        m.valid(),
        m.depth < m.stack.len(),
    ensures
        halts(seq!['[', '-', ']'], Config::start(m)),
        outcome(seq!['[', '-', ']'], Config::start(m)) == Status::Done(
            after_clear(Config::start(m)),
        ),
{
    clear_loop_ends(seq!['[', '-', ']'], Config::start(m), 0);
}

/// A run of the empty program ends at once: nothing is emitted and the machine
/// is unchanged.
pub proof fn empty_program_is_noop(m: Machine)
    ensures
        halts(Seq::empty(), Config::start(m)),
        outcome(Seq::empty(), Config::start(m)) == Status::Done(Config::start(m)),
{
    outcome_by_bound(Seq::empty(), Config::start(m), 0);
}

/// Clearing a machine twice gives what clearing it once gives.
pub proof fn cleared_is_idempotent(m: Machine)
    ensures
        m.cleared().cleared() == m.cleared(),
{
    assert(m.cleared().cleared().tape =~= m.cleared().tape);
    assert(m.cleared().cleared().stack =~= m.cleared().stack);
}

} // verus!
