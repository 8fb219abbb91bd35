use brainfuck::{Brainfuck, ErrorKind};

#[test]
fn test_new_is_zeroed() {
    let machine = Brainfuck::new(7, 3);
    assert_eq!(machine.data(), &vec![0u8; 7]);
    assert_eq!(machine.data_pointer(), 0);
    assert_eq!(machine.stack_pointer(), 0);
}

#[test]
fn test_default_capacities() {
    let mut machine = Brainfuck::default();
    assert_eq!(machine.data().len(), 100);
    assert_eq!(machine.interpret("[[[[[[[[[["), Ok(String::new()));
    assert_eq!(machine.stack_pointer(), 10);
    assert_eq!(machine.interpret("["), Err(ErrorKind::LoopStackOverflow));
}

#[test]
fn test_increments_wrap_modulo_256() {
    let mut machine = Brainfuck::new(4, 2);
    let source = "+".repeat(300);
    assert_eq!(machine.interpret(&source), Ok(String::new()));
    assert_eq!(machine.data()[0], 44);
    let mut machine = Brainfuck::new(4, 2);
    assert_eq!(machine.interpret(&"+".repeat(256)), Ok(String::new()));
    assert_eq!(machine.data()[0], 0);
    let mut machine = Brainfuck::new(4, 2);
    assert_eq!(machine.interpret(&"+".repeat(255)), Ok(String::new()));
    assert_eq!(machine.data()[0], 255);
}

#[test]
fn test_decrements_wrap_modulo_256() {
    let mut machine = Brainfuck::new(4, 2);
    assert_eq!(machine.interpret(&"-".repeat(300)), Ok(String::new()));
    assert_eq!(machine.data()[0], 212);
    let mut machine = Brainfuck::new(4, 2);
    assert_eq!(machine.interpret("-"), Ok(String::new()));
    assert_eq!(machine.data()[0], 255);
    let mut machine = Brainfuck::new(4, 2);
    assert_eq!(machine.interpret(&"-".repeat(256)), Ok(String::new()));
    assert_eq!(machine.data()[0], 0);
}

#[test]
fn test_interleaved_arithmetic_nets() {
    let mut machine = Brainfuck::new(4, 2);
    assert_eq!(machine.interpret("+-+-++--+++-"), Ok(String::new()));
    assert_eq!(machine.data()[0], 2);
    assert_eq!(machine.interpret("--+---"), Ok(String::new()));
    assert_eq!(machine.data()[0], 254);
    assert_eq!(machine.data()[1], 0);
}

#[test]
fn test_right_then_left_changes_nothing() {
    let mut machine = Brainfuck::new(4, 2);
    assert_eq!(machine.interpret("+++>++"), Ok(String::new()));
    let tape = machine.data().clone();
    assert_eq!(machine.interpret("><"), Ok(String::new()));
    assert_eq!(machine.data_pointer(), 1);
    assert_eq!(machine.data(), &tape);
    assert_eq!(machine.interpret("<>"), Ok(String::new()));
    assert_eq!(machine.data_pointer(), 1);
    assert_eq!(machine.data(), &tape);
}

#[test]
fn test_clear_loop_from_any_value() {
    for start in [0usize, 1, 2, 100, 255] {
        let mut machine = Brainfuck::new(4, 2);
        assert_eq!(machine.interpret(&"+".repeat(start)), Ok(String::new()));
        assert_eq!(machine.interpret(">++<[-]"), Ok(String::new()));
        assert_eq!(machine.data(), &vec![0u8, 2, 0, 0]);
        assert_eq!(machine.data_pointer(), 0);
        assert_eq!(machine.stack_pointer(), 0);
    }
}

#[test]
fn test_loop_body_runs_before_the_first_test() {
    let mut machine = Brainfuck::new(4, 2);
    assert_eq!(machine.interpret("[>+<]"), Ok(String::new()));
    assert_eq!(machine.data(), &vec![0u8, 1, 0, 0]);
}

#[test]
fn test_nested_loops() {
    let mut machine = Brainfuck::new(4, 2);
    assert_eq!(machine.interpret("+++[>++[>+<-]<-]"), Ok(String::new()));
    assert_eq!(machine.data(), &vec![0u8, 0, 6, 0]);
    assert_eq!(machine.stack_pointer(), 0);
}

#[test]
fn test_cursor_overflow() {
    let mut machine = Brainfuck::new(3, 2);
    assert_eq!(machine.interpret(">>"), Ok(String::new()));
    assert_eq!(machine.data_pointer(), 2);
    assert_eq!(machine.interpret("+>+"), Err(ErrorKind::CursorOverflow));
    assert_eq!(machine.data_pointer(), 2);
    assert_eq!(machine.data(), &vec![0u8, 0, 1]);
}

#[test]
fn test_cursor_overflow_on_single_cell() {
    let mut machine = Brainfuck::new(1, 1);
    assert_eq!(machine.interpret(">"), Err(ErrorKind::CursorOverflow));
    assert_eq!(machine.interpret("<"), Err(ErrorKind::CursorUnderflow));
    assert_eq!(machine.interpret("++."), Ok("\u{2}".to_string()));
}

#[test]
fn test_cursor_underflow_keeps_earlier_changes() {
    let mut machine = Brainfuck::new(3, 2);
    assert_eq!(machine.interpret("++.<+"), Err(ErrorKind::CursorUnderflow));
    assert_eq!(machine.data(), &vec![2u8, 0, 0]);
    assert_eq!(machine.data_pointer(), 0);
}

#[test]
fn test_loop_stack_overflow() {
    let mut machine = Brainfuck::new(3, 2);
    assert_eq!(machine.interpret("[[+["), Err(ErrorKind::LoopStackOverflow));
    assert_eq!(machine.stack_pointer(), 2);
    assert_eq!(machine.data()[0], 1);
}

#[test]
fn test_no_loop_stack() {
    let mut machine = Brainfuck::new(3, 0);
    assert_eq!(machine.interpret("+"), Ok(String::new()));
    assert_eq!(machine.interpret("["), Err(ErrorKind::LoopStackOverflow));
    assert_eq!(machine.interpret("]"), Err(ErrorKind::UnmatchedBracket));
}

#[test]
fn test_unmatched_bracket_after_loop() {
    let mut machine = Brainfuck::new(3, 2);
    assert_eq!(machine.interpret("+[-]]"), Err(ErrorKind::UnmatchedBracket));
    assert_eq!(machine.data()[0], 0);
}

#[test]
fn test_messages() {
    assert_eq!(ErrorKind::CursorOverflow.message(), "Data pointer beyond range");
    assert_eq!(ErrorKind::CursorUnderflow.message(), "Data pointer below range");
    assert_eq!(ErrorKind::LoopStackOverflow.message(), "Nested loop limit reached");
    assert_eq!(ErrorKind::UnmatchedBracket.message(), "Mismatched brackets");
}

#[test]
fn test_output_in_emission_order() {
    let mut machine = Brainfuck::new(3, 2);
    let mut source = "+".repeat(65);
    source.push_str(".+.+.");
    assert_eq!(machine.interpret(&source), Ok("ABC".to_string()));
    assert_eq!(machine.interpret("."), Ok("C".to_string()));
}

#[test]
fn test_output_of_high_cell_values() {
    let mut machine = Brainfuck::new(3, 2);
    let mut source = "+".repeat(200);
    source.push_str(".>.<-.");
    assert_eq!(machine.interpret(&source), Ok("\u{c8}\u{0}\u{c7}".to_string()));
}

#[test]
fn test_other_characters_are_skipped() {
    let mut machine = Brainfuck::new(3, 2);
    assert_eq!(machine.interpret("a + b\n+ , \u{e9} > x + #"), Ok(String::new()));
    assert_eq!(machine.data(), &vec![2u8, 1, 0]);
    assert_eq!(machine.data_pointer(), 1);
}

#[test]
fn test_empty_source() {
    let mut machine = Brainfuck::new(3, 2);
    assert_eq!(machine.interpret("+>+"), Ok(String::new()));
    assert_eq!(machine.interpret(""), Ok(String::new()));
    assert_eq!(machine.data(), &vec![1u8, 1, 0]);
    assert_eq!(machine.data_pointer(), 1);
    assert_eq!(machine.stack_pointer(), 0);
}

#[test]
fn test_state_persists_between_calls() {
    let mut machine = Brainfuck::new(3, 2);
    assert_eq!(machine.interpret("++>"), Ok(String::new()));
    assert_eq!(machine.interpret("+++"), Ok(String::new()));
    assert_eq!(machine.data(), &vec![2u8, 3, 0]);
    assert_eq!(machine.data_pointer(), 1);
}

#[test]
fn test_open_loop_persists_between_calls() {
    let mut machine = Brainfuck::new(3, 2);
    assert_eq!(machine.interpret("+["), Ok(String::new()));
    assert_eq!(machine.stack_pointer(), 1);
    // The cell is not zero, so `]` jumps behind the address that the first
    // call stored, which is the end of this source.
    assert_eq!(machine.interpret("]-"), Ok(String::new()));
    assert_eq!(machine.stack_pointer(), 1);
    assert_eq!(machine.data()[0], 1);
    assert_eq!(machine.interpret("-]"), Ok(String::new()));
    assert_eq!(machine.stack_pointer(), 0);
}

#[test]
fn test_reset_restores_initial_state() {
    let mut machine = Brainfuck::new(5, 3);
    assert_eq!(machine.interpret("+>++>+++[["), Ok(String::new()));
    machine.reset();
    assert_eq!(machine.data(), &vec![0u8; 5]);
    assert_eq!(machine.data_pointer(), 0);
    assert_eq!(machine.stack_pointer(), 0);
    assert_eq!(machine.interpret("[[["), Ok(String::new()));
    assert_eq!(machine.interpret(">>>>+"), Ok(String::new()));
    assert_eq!(machine.data(), &vec![0u8, 0, 0, 0, 1]);
}

#[test]
fn test_reset_twice_is_reset_once() {
    let mut once = Brainfuck::new(5, 3);
    let mut twice = Brainfuck::new(5, 3);
    assert_eq!(once.interpret("+>++>+++[[<"), Ok(String::new()));
    assert_eq!(twice.interpret("+>++>+++[[<"), Ok(String::new()));
    once.reset();
    twice.reset().reset();
    assert_eq!(once.data(), twice.data());
    assert_eq!(once.data_pointer(), twice.data_pointer());
    assert_eq!(once.stack_pointer(), twice.stack_pointer());
    assert_eq!(once.interpret("]"), Err(ErrorKind::UnmatchedBracket));
    assert_eq!(twice.interpret("]"), Err(ErrorKind::UnmatchedBracket));
}
