use intcode::{Fault, Intcode};

fn run_ok(vm: &mut Intcode, inputs: &[i64]) -> Vec<i64> {
    match vm.run(inputs) {
        Ok(out) => out,
        Err(f) => panic!("unexpected fault {:?}", f),
    }
}

#[test]
fn arithmetic_program_leaves_3500() {
    let mut vm = Intcode::new(&vec![1, 9, 10, 3, 2, 3, 11, 0, 99, 30, 40, 50]);
    assert_eq!(run_ok(&mut vm, &[]), Vec::<i64>::new());
    assert_eq!(vm.memory[0], 3500);
    assert_eq!(vm.memory, vec![3500, 9, 10, 70, 2, 3, 11, 0, 99, 30, 40, 50]);
    assert!(vm.is_done());
}

#[test]
fn minimal_program_leaves_2() {
    let mut vm = Intcode::new(&vec![1, 0, 0, 0, 99]);
    run_ok(&mut vm, &[]);
    assert_eq!(vm.memory[0], 2);
    assert!(vm.is_done());
}

#[test]
fn small_programs_end_in_known_memory() {
    let mut vm = Intcode::new(&vec![2, 3, 0, 3, 99]);
    run_ok(&mut vm, &[]);
    assert_eq!(vm.memory, vec![2, 3, 0, 6, 99]);
    let mut vm = Intcode::new(&vec![2, 4, 4, 5, 99, 0]);
    run_ok(&mut vm, &[]);
    assert_eq!(vm.memory, vec![2, 4, 4, 5, 99, 9801]);
    let mut vm = Intcode::new(&vec![1, 1, 1, 4, 99, 5, 6, 0, 99]);
    run_ok(&mut vm, &[]);
    assert_eq!(vm.memory, vec![30, 1, 1, 4, 2, 5, 6, 0, 99]);
    let mut vm = Intcode::new(&vec![1002, 4, 3, 4, 33]);
    run_ok(&mut vm, &[]);
    assert_eq!(vm.memory, vec![1002, 4, 3, 4, 99]);
    let mut vm = Intcode::new(&vec![1101, 100, -1, 4, 0]);
    run_ok(&mut vm, &[]);
    assert_eq!(vm.memory[4], 99);
}

#[test]
fn equals_immediate_compares_input_to_8() {
    let program = vec![3, 3, 1108, -1, 8, 3, 4, 3, 99];
    for (input, expected) in [(7, 0), (8, 1), (9, 0)] {
        let mut vm = Intcode::new(&program);
        assert_eq!(run_ok(&mut vm, &[input]), vec![expected]);
        assert!(vm.is_done());
    }
}

#[test]
fn comparisons_in_both_modes() {
    let equal_position = vec![3, 9, 8, 9, 10, 9, 4, 9, 99, -1, 8];
    let less_position = vec![3, 9, 7, 9, 10, 9, 4, 9, 99, -1, 8];
    let less_immediate = vec![3, 3, 1107, -1, 8, 3, 4, 3, 99];
    for (input, eq, lt) in [(7, 0, 1), (8, 1, 0), (9, 0, 0), (-3, 0, 1)] {
        assert_eq!(run_ok(&mut Intcode::new(&equal_position), &[input]), vec![eq]);
        assert_eq!(run_ok(&mut Intcode::new(&less_position), &[input]), vec![lt]);
        assert_eq!(run_ok(&mut Intcode::new(&less_immediate), &[input]), vec![lt]);
    }
}

#[test]
fn jumps_in_both_modes() {
    let position = vec![3, 12, 6, 12, 15, 1, 13, 14, 13, 4, 13, 99, -1, 0, 1, 9];
    let immediate = vec![3, 3, 1105, -1, 9, 1101, 0, 0, 12, 4, 12, 99, 1];
    for (input, expected) in [(0, 0), (1, 1), (-7, 1), (42, 1)] {
        assert_eq!(run_ok(&mut Intcode::new(&position), &[input]), vec![expected]);
        assert_eq!(run_ok(&mut Intcode::new(&immediate), &[input]), vec![expected]);
    }
}

#[test]
fn larger_example_sorts_input_around_8() {
    let program = vec![
        3, 21, 1008, 21, 8, 20, 1005, 20, 22, 107, 8, 21, 20, 1006, 20, 31, 1106, 0, 36, 98, 0, 0,
        1002, 21, 125, 20, 4, 20, 1105, 1, 46, 104, 999, 1105, 1, 46, 1101, 1000, 1, 20, 4, 20,
        1105, 1, 46, 98, 99,
    ];
    for (input, expected) in [(7, 999), (8, 1000), (9, 1001)] {
        let mut vm = Intcode::new(&program);
        assert_eq!(run_ok(&mut vm, &[input]), vec![expected]);
        assert!(vm.is_done());
    }
}

#[test]
fn resumes_at_the_pending_input() {
    let program = vec![3, 20, 3, 21, 1, 20, 21, 22, 4, 22, 99];
    let mut vm = Intcode::new(&program);
    assert_eq!(run_ok(&mut vm, &[]), Vec::<i64>::new());
    assert!(!vm.is_done());
    assert_eq!(vm.memory, program);
    assert_eq!(run_ok(&mut vm, &[5]), Vec::<i64>::new());
    assert!(!vm.is_done());
    assert_eq!(vm.memory[20], 5);
    assert_eq!(run_ok(&mut vm, &[7]), vec![12]);
    assert!(vm.is_done());
    assert_eq!(vm.memory[20], 5);
    assert_eq!(vm.memory[21], 7);
    assert_eq!(vm.memory[22], 12);
}

#[test]
fn split_runs_equal_one_run() {
    let program = vec![3, 20, 4, 20, 3, 21, 1, 20, 21, 22, 4, 22, 99];
    let mut whole = Intcode::new(&program);
    let all = run_ok(&mut whole, &[5, 7]);
    let mut parts = Intcode::new(&program);
    let mut out = run_ok(&mut parts, &[5]);
    assert_eq!(out, vec![5]);
    assert!(!parts.is_done());
    out.extend(run_ok(&mut parts, &[7]));
    assert_eq!(out, all);
    assert_eq!(all, vec![5, 12]);
    assert_eq!(parts.memory, whole.memory);
    assert_eq!(parts.is_done(), whole.is_done());
}

#[test]
fn excess_inputs_are_discarded() {
    let program = vec![3, 9, 4, 9, 3, 10, 4, 10, 99, 0, 0];
    let mut vm = Intcode::new(&program);
    assert_eq!(run_ok(&mut vm, &[1, 2]), vec![1, 2]);
    let program = vec![3, 5, 3, 6, 99, 0, 0];
    let mut vm = Intcode::new(&program);
    assert_eq!(run_ok(&mut vm, &[4]), Vec::<i64>::new());
    assert!(!vm.is_done());
    let mut other = Intcode::new(&vec![3, 7, 4, 7, 3, 8, 99, 0, 0]);
    assert_eq!(run_ok(&mut other, &[1]), vec![1]);
    assert_eq!(run_ok(&mut other, &[9, 10, 11]), Vec::<i64>::new());
    assert!(other.is_done());
    assert_eq!(other.memory[8], 9);
}

#[test]
fn quine_outputs_itself() {
    let program = vec![109, 1, 204, -1, 1001, 100, 1, 100, 1008, 100, 16, 101, 1006, 101, 0, 99];
    let mut vm = Intcode::new(&program);
    assert_eq!(vm.memory.len(), program.len());
    assert_eq!(run_ok(&mut vm, &[]), program);
    assert!(vm.is_done());
    assert_eq!(vm.memory.len(), 102);
    assert_eq!(vm.memory[100], 16);
    assert_eq!(vm.memory[101], 1);
    assert_eq!(&vm.memory[..16], &program[..]);
}

#[test]
fn large_numbers() {
    let mut vm = Intcode::new(&vec![1102, 34915192, 34915192, 7, 4, 7, 99, 0]);
    assert_eq!(run_ok(&mut vm, &[]), vec![1219070632396864]);
    let mut vm = Intcode::new(&vec![104, 1125899906842624, 99]);
    assert_eq!(run_ok(&mut vm, &[]), vec![1125899906842624]);
}

#[test]
fn relative_base_offsets_reads_and_writes() {
    let mut vm = Intcode::new(&vec![109, 10, 203, -3, 204, -3, 109, -4, 2201, 1, 2, 20, 4, 26, 99]);
    assert_eq!(run_ok(&mut vm, &[77]), vec![77, 0]);
    assert_eq!(vm.memory[7], 77);
}

#[test]
fn reads_past_the_end_are_zero_and_grow_memory() {
    let mut vm = Intcode::new(&vec![4, 50, 99]);
    assert_eq!(run_ok(&mut vm, &[]), vec![0]);
    assert_eq!(vm.memory.len(), 51);
    assert!(vm.memory[3..].iter().all(|v| *v == 0));
}

#[test]
fn clones_are_independent() {
    let program = vec![3, 15, 1001, 15, 100, 15, 4, 15, 3, 16, 4, 16, 99, 0, 0, 0, 0];
    let mut first = Intcode::new(&program);
    assert_eq!(run_ok(&mut first, &[]), Vec::<i64>::new());
    assert!(!first.is_done());
    let mut copy = first.clone();
    assert_eq!(run_ok(&mut first, &[1]), vec![101]);
    assert_eq!(copy.memory, program);
    assert!(!copy.is_done());
    assert_eq!(run_ok(&mut copy, &[2]), vec![102]);
    assert_eq!(first.memory[15], 101);
    assert_eq!(copy.memory[15], 102);
    assert_eq!(run_ok(&mut copy, &[8]), vec![8]);
    assert!(copy.is_done());
    assert!(!first.is_done());
    assert_eq!(first.memory[16], 0);
    assert_eq!(run_ok(&mut first, &[9]), vec![9]);
    assert_eq!(copy.memory[16], 8);
}

#[test]
fn unknown_opcode_faults_on_every_run() {
    let program = vec![104, 7, 42, 99];
    let mut vm = Intcode::new(&program);
    assert_eq!(vm.run(&[]), Err(Fault::UnknownOpcode(42)));
    assert_eq!(vm.run(&[1, 2, 3]), Err(Fault::UnknownOpcode(42)));
    assert_eq!(vm.run(&[]), Err(Fault::UnknownOpcode(42)));
    assert!(!vm.is_done());
    assert_eq!(vm.memory, program);
    for inputs in [vec![], vec![0], vec![5, 6]] {
        assert_eq!(Intcode::new(&vec![10, 0, 0]).run(&inputs), Err(Fault::UnknownOpcode(10)));
    }
}

#[test]
fn unknown_opcode_keeps_the_sign_of_the_word() {
    assert_eq!(Intcode::new(&vec![0]).run(&[]), Err(Fault::UnknownOpcode(0)));
    assert_eq!(Intcode::new(&vec![-5]).run(&[]), Err(Fault::UnknownOpcode(-5)));
    assert_eq!(Intcode::new(&vec![-1203]).run(&[]), Err(Fault::UnknownOpcode(-3)));
    assert_eq!(Intcode::new(&vec![1298]).run(&[]), Err(Fault::UnknownOpcode(98)));
    assert_eq!(Intcode::new(&vec![i64::MIN]).run(&[]), Err(Fault::UnknownOpcode(-8)));
}

#[test]
fn invalid_mode_faults() {
    assert_eq!(Intcode::new(&vec![304, 0, 99]).run(&[]), Err(Fault::InvalidMode(3)));
    assert_eq!(Intcode::new(&vec![90001, 0, 0, 0, 99]).run(&[]), Err(Fault::InvalidMode(9)));
    assert_eq!(Intcode::new(&vec![503, 0, 99]).run(&[1]), Err(Fault::InvalidMode(5)));
}

#[test]
fn immediate_write_faults() {
    assert_eq!(Intcode::new(&vec![11101, 1, 1, 0, 99]).run(&[]), Err(Fault::ImmediateWrite));
    assert_eq!(Intcode::new(&vec![103, 0, 99]).run(&[1]), Err(Fault::ImmediateWrite));
    let mut vm = Intcode::new(&vec![103, 0, 99]);
    assert_eq!(vm.run(&[]), Ok(vec![]));
    assert!(!vm.is_done());
}

#[test]
fn invalid_address_faults() {
    assert_eq!(Intcode::new(&vec![4, -1, 99]).run(&[]), Err(Fault::InvalidAddress));
    assert_eq!(Intcode::new(&vec![204, -1, 99]).run(&[]), Err(Fault::InvalidAddress));
    assert_eq!(Intcode::new(&vec![3, -2, 99]).run(&[1]), Err(Fault::InvalidAddress));
    assert_eq!(Intcode::new(&vec![1105, 1, -4]).run(&[]), Err(Fault::InvalidAddress));
    assert_eq!(
        Intcode::new(&vec![109, i64::MAX, 204, 1, 99]).run(&[]),
        Err(Fault::InvalidAddress)
    );
}

#[test]
fn running_off_the_end_reads_zero() {
    let mut vm = Intcode::new(&vec![]);
    assert_eq!(vm.run(&[]), Err(Fault::UnknownOpcode(0)));
    assert_eq!(vm.memory, Vec::<i64>::new());
    let mut vm = Intcode::new(&vec![1, 0, 0]);
    assert_eq!(vm.run(&[]), Err(Fault::UnknownOpcode(0)));
    assert_eq!(vm.memory, vec![2, 0, 0, 0]);
    let mut vm = Intcode::new(&vec![1101, 1, 1, 0]);
    assert_eq!(vm.run(&[]), Err(Fault::UnknownOpcode(0)));
    assert_eq!(vm.memory, vec![2, 1, 1, 0]);
    assert_eq!(Intcode::new(&vec![1105, 1, 3]).run(&[]), Err(Fault::UnknownOpcode(0)));
    assert_eq!(Intcode::new(&vec![1105, 0]).run(&[]), Err(Fault::UnknownOpcode(0)));
    let mut vm = Intcode::new(&vec![3]);
    assert_eq!(vm.run(&[5]), Err(Fault::UnknownOpcode(0)));
    assert_eq!(vm.memory, vec![5, 0]);
    let mut vm = Intcode::new(&vec![4]);
    assert_eq!(vm.run_for(&[], 1), Err(Fault::StepLimit));
    assert_eq!(vm.memory, vec![4, 0]);
    let mut vm = Intcode::new(&vec![1105, 0]);
    assert_eq!(vm.run_for(&[], 1), Err(Fault::StepLimit));
    assert_eq!(vm.memory, vec![1105, 0]);
    assert_eq!(vm.run_for(&[], 1), Err(Fault::UnknownOpcode(0)));
    assert_eq!(vm.memory, vec![1105, 0]);
}

#[test]
fn addresses_beyond_any_memory_fault() {
    assert_eq!(Intcode::new(&vec![1105, 1, i64::MAX]).run(&[]), Err(Fault::InvalidAddress));
    assert_eq!(Intcode::new(&vec![4, 1 << 60, 99]).run(&[]), Err(Fault::InvalidAddress));
    assert_eq!(Intcode::new(&vec![3, i64::MAX, 99]).run(&[1]), Err(Fault::InvalidAddress));
    assert_eq!(Intcode::new(&vec![1106, 0, (1 << 60) - 1, 99]).run(&[]), Err(Fault::InvalidAddress));
    let mut vm = Intcode::new(&vec![1106, 0, (1 << 60) - 2, 99]);
    assert_eq!(vm.run_for(&[], 1), Err(Fault::StepLimit));
    assert_eq!(vm.memory.len(), 4);
}

#[test]
fn a_read_that_grows_memory_feeds_the_next_fetch() {
    let mut vm = Intcode::new(&vec![1, 100, 0]);
    assert_eq!(vm.run(&[]), Err(Fault::UnknownOpcode(0)));
    assert_eq!(vm.memory.len(), 101);
    assert_eq!(vm.memory[0], 1);
}

#[test]
fn overflow_faults() {
    assert_eq!(Intcode::new(&vec![1102, i64::MAX, 2, 0, 99]).run(&[]), Err(Fault::Overflow));
    assert_eq!(Intcode::new(&vec![1101, i64::MAX, 1, 0, 99]).run(&[]), Err(Fault::Overflow));
    assert_eq!(Intcode::new(&vec![1101, i64::MIN, -1, 0, 99]).run(&[]), Err(Fault::Overflow));
    assert_eq!(
        Intcode::new(&vec![109, i64::MAX, 109, 1, 99]).run(&[]),
        Err(Fault::Overflow)
    );
    let mut vm = Intcode::new(&vec![1101, i64::MAX, 0, 0, 99]);
    assert_eq!(vm.run(&[]), Ok(vec![]));
    assert_eq!(vm.memory[0], i64::MAX);
}

#[test]
fn a_fault_leaves_the_interpreter_as_it_was() {
    let program = vec![104, 1, 1, 40, 0, -1, 99];
    let mut vm = Intcode::new(&program);
    assert_eq!(vm.run(&[]), Err(Fault::InvalidAddress));
    assert_eq!(vm.memory, program);
    assert_eq!(vm.run(&[]), Err(Fault::InvalidAddress));
    vm.memory[5] = 0;
    assert_eq!(vm.run(&[]), Ok(vec![]));
    assert_eq!(vm.memory[0], 104);
    assert_eq!(vm.memory.len(), 41);
    assert!(vm.is_done());
}

#[test]
fn step_limit_stops_a_loop() {
    let mut vm = Intcode::new(&vec![1105, 1, 0]);
    assert_eq!(vm.run_for(&[], 1000), Err(Fault::StepLimit));
    assert!(!vm.is_done());
    let mut vm = Intcode::new(&vec![1101, 1, 1, 0, 99]);
    assert_eq!(vm.run_for(&[], 0), Err(Fault::StepLimit));
    assert_eq!(vm.run_for(&[], 1), Err(Fault::StepLimit));
    assert_eq!(vm.memory[0], 2);
    assert_eq!(vm.run_for(&[], 1), Ok(vec![]));
    assert!(vm.is_done());
}

#[test]
fn a_halted_interpreter_stays_halted() {
    let mut vm = Intcode::new(&vec![104, 5, 99, 104, 6, 99]);
    assert_eq!(vm.run(&[]), Ok(vec![5]));
    assert!(vm.is_done());
    assert_eq!(vm.run(&[1]), Ok(vec![]));
    assert_eq!(vm.run_for(&[], 0), Ok(vec![]));
    assert!(vm.is_done());
}

#[test]
fn patched_memory_is_executed() {
    let mut program = vec![1, 0, 0, 0, 99, 0, 0, 0, 0, 0, 0, 0, 7];
    program[1] = 12;
    program[2] = 2;
    let mut vm = Intcode::new(&program);
    run_ok(&mut vm, &[]);
    assert_eq!(vm.memory[0], 9);
    let mut vm = Intcode::new(&vec![1101, 1, 1, 0, 99]);
    vm.memory[1] = 40;
    run_ok(&mut vm, &[]);
    assert_eq!(vm.memory[0], 41);
}

#[test]
fn memory_accessors() {
    let mut vm = Intcode::new(&vec![1101, 1, 1, 0, 99]);
    assert_eq!(vm.memory_at(0), 1101);
    assert_eq!(vm.memory_at(4), 99);
    assert_eq!(vm.memory_at(5), 0);
    assert_eq!(vm.memory_at(usize::MAX), 0);
    assert_eq!(vm.memory.len(), 5);
    vm.set_memory(1, 40);
    vm.set_memory(9, 7);
    assert_eq!(vm.memory, vec![1101, 40, 1, 0, 99, 0, 0, 0, 0, 7]);
    assert_eq!(vm.run(&[]), Ok(vec![]));
    assert_eq!(vm.memory_at(0), 41);
    assert_eq!(vm.memory_at(9), 7);
}

#[test]
fn a_larger_budget_changes_nothing() {
    let program = vec![3, 20, 4, 20, 3, 21, 1, 20, 21, 22, 4, 22, 99];
    let mut whole = Intcode::new(&program);
    let mut bounded = Intcode::new(&program);
    assert_eq!(whole.run(&[5, 7]), Ok(vec![5, 12]));
    assert_eq!(bounded.run_for(&[5, 7], 6), Ok(vec![5, 12]));
    assert_eq!(bounded.memory, whole.memory);
    let mut short = Intcode::new(&program);
    assert_eq!(short.run_for(&[5, 7], 5), Err(Fault::StepLimit));
    assert_eq!(short.run_for(&[], 1), Ok(vec![]));
    assert!(short.is_done());
    assert_eq!(short.memory, whole.memory);
}

#[test]
fn memory_only_grows() {
    let mut vm = Intcode::new(&vec![4, 30, 1101, 2, 3, 40, 99]);
    assert_eq!(vm.run(&[]), Ok(vec![0]));
    assert_eq!(vm.memory.len(), 41);
    assert_eq!(vm.memory[40], 5);
    assert_eq!(&vm.memory[..7], &[4, 30, 1101, 2, 3, 40, 99]);
}
