use bfinterp::{
    decrement_memory_pointer, execute, increment_memory_pointer, run, symbols, Error, JumpTable,
    Machine, TAPE_SIZE,
};

fn step_once(src: &str, machine: &mut Machine) -> Option<u8> {
    let program = symbols(src);
    let table = JumpTable::build(&program).unwrap();
    machine.step(&program, &table, None)
}

#[test]
fn data_pointer_wraps_left_from_first_cell() {
    let mut m = Machine::new();
    step_once("<", &mut m);
    assert_eq!(m.dp, TAPE_SIZE - 1);
    assert_eq!(decrement_memory_pointer(0), TAPE_SIZE - 1);
}

#[test]
fn data_pointer_wraps_right_from_last_cell() {
    let mut m = Machine::new();
    m.dp = TAPE_SIZE - 1;
    step_once(">", &mut m);
    assert_eq!(m.dp, 0);
    assert_eq!(increment_memory_pointer(TAPE_SIZE - 1), 0);
    assert_eq!(increment_memory_pointer(5), 6);
    assert_eq!(decrement_memory_pointer(5), 4);
}

#[test]
fn cell_wraps_up_from_255() {
    let mut m = Machine::new();
    m.tape[0] = 255;
    step_once("+", &mut m);
    assert_eq!(m.tape[0], 0);
    assert_eq!(m.cell(), 0);
}

#[test]
fn cell_wraps_down_from_zero() {
    let mut m = Machine::new();
    step_once("-", &mut m);
    assert_eq!(m.tape[0], 255);
}

#[test]
fn fresh_machine_is_zeroed() {
    let m = Machine::new();
    assert_eq!(m.ip, 0);
    assert_eq!(m.dp, 0);
    assert_eq!(m.tape.len(), TAPE_SIZE);
    assert!(m.tape.iter().all(|v| *v == 0));
}

#[test]
fn seventy_two_increments_then_output_emit_72() {
    let src = format!("{}.", "+".repeat(72));
    let res = run(&src, &vec![], 1000).unwrap();
    assert_eq!(res.output, vec![72u8]);
    assert_eq!(res.machine.ip, 73);
}

#[test]
fn copy_loop_moves_value_to_second_cell() {
    let res = run("+++[>+<-]", &vec![], 1000).unwrap();
    assert_eq!(res.machine.tape[0], 0);
    assert_eq!(res.machine.tape[1], 3);
    assert_eq!(res.machine.ip, 9);
    assert_eq!(res.machine.dp, 0);
}

#[test]
fn zero_cell_skips_loop_body() {
    let res = run("[+.]+", &vec![], 100).unwrap();
    assert!(res.output.is_empty());
    assert_eq!(res.machine.tape[0], 1);
}

#[test]
fn comma_reads_input_bytes_in_order_and_keeps_cell_at_end() {
    let res = run(",.>,.>,.", &vec![65, 66], 100).unwrap();
    assert_eq!(res.output, vec![65, 66, 0]);
    assert_eq!(res.consumed, 2);
}

#[test]
fn unknown_symbols_are_ignored() {
    let res = run("+a+ b.", &vec![], 100).unwrap();
    assert_eq!(res.output, vec![2]);
}

#[test]
fn step_limit_stops_an_endless_loop() {
    let res = run("+[]", &vec![], 50).unwrap();
    assert!(res.machine.ip < 3);
    assert_eq!(res.machine.tape[0], 1);
}

#[test]
fn run_refuses_mismatched_program() {
    assert!(matches!(run("+[", &vec![], 10), Err(Error::MismatchedBrackets(1))));
    assert!(matches!(run("]", &vec![], 10), Err(Error::MismatchedBrackets(0))));
}

#[test]
fn stepped_machine_reports_input_and_halt() {
    let program = symbols(",.");
    let table = JumpTable::build(&program).unwrap();
    let mut m = Machine::new();
    assert!(m.needs_input(&program));
    assert_eq!(m.step(&program, &table, Some(b'x')), None);
    assert!(!m.needs_input(&program));
    assert_eq!(m.step(&program, &table, None), Some(b'x'));
    assert!(m.is_halted(&program));
}

#[test]
fn execute_matches_run() {
    let program = symbols("++[>++<-]>.");
    let table = JumpTable::build(&program).unwrap();
    let res = execute(&program, &table, &vec![], 1000);
    assert_eq!(res.output, vec![4]);
}
