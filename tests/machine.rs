use uvm::{Trap, UVMError, UVM};

fn loaded(source: &str) -> UVM {
    let mut vm = UVM::new();
    assert_eq!(vm.load_program(source), Ok(()));
    vm
}

fn run_to_end(vm: &mut UVM) -> (Result<bool, Trap>, Vec<i64>) {
    let mut out = Vec::new();
    let r = vm.run(1000, &mut out);
    (r, out)
}

#[test]
fn add_program_halts_with_sum() {
    let mut vm = loaded("0 2\n0 40\n6\n11");
    assert_eq!(run_to_end(&mut vm), (Ok(true), vec![]));
    assert_eq!(vm.stack(), &vec![42]);
    assert!(vm.is_halted());
    assert_eq!(vm.instruction_pointer(), 3);
}

#[test]
fn add_program_with_negative_operands() {
    let mut vm = loaded("0 -17\n0 5\n6\n11");
    assert_eq!(run_to_end(&mut vm).0, Ok(true));
    assert_eq!(vm.stack(), &vec![-12]);
}

#[test]
fn add_wraps_around() {
    let mut vm = loaded("0 9223372036854775807\n0 1\n6\n11");
    assert_eq!(run_to_end(&mut vm).0, Ok(true));
    assert_eq!(vm.stack(), &vec![i64::MIN]);
}

#[test]
fn divide_by_zero_traps_with_stack_unchanged() {
    let mut vm = loaded("0 7\n0 0\n9\n11");
    assert_eq!(run_to_end(&mut vm).0, Err(Trap::DivisionByZero));
    assert_eq!(vm.stack(), &vec![7, 0]);
    assert_eq!(vm.instruction_pointer(), 2);
    assert!(!vm.is_halted());
}

#[test]
fn pop_on_empty_stack_underflows() {
    let mut vm = loaded("1\n11");
    assert_eq!(vm.execute_instruction(), Err(Trap::StackUnderflow));
    assert_eq!(vm.stack(), &Vec::<i64>::new());
    assert_eq!(vm.instruction_pointer(), 0);
}

#[test]
fn binary_ops_on_short_stack_underflow() {
    for op in ["5", "6", "7", "8", "9"] {
        let source = format!("0 3\n{}\n11", op);
        let mut vm = loaded(&source);
        assert_eq!(vm.execute_instruction(), Ok(None));
        assert_eq!(vm.execute_instruction(), Err(Trap::StackUnderflow));
        assert_eq!(vm.stack(), &vec![3]);
        assert_eq!(vm.instruction_pointer(), 1);
    }
}

#[test]
fn empty_source_loads_and_traps_on_fetch() {
    let mut vm = loaded("");
    assert!(vm.program().is_empty());
    assert_eq!(vm.execute_instruction(), Err(Trap::InvalidInstructionPointer));
}

#[test]
fn whitespace_source_is_empty_program() {
    let mut vm = loaded("  \n\t \r\n ");
    assert!(vm.program().is_empty());
    assert_eq!(run_to_end(&mut vm).0, Err(Trap::InvalidInstructionPointer));
}

#[test]
fn duplicate_top_element() {
    let mut vm = loaded("0 5\n2 0\n11");
    assert_eq!(run_to_end(&mut vm).0, Ok(true));
    assert_eq!(vm.stack(), &vec![5, 5]);
}

#[test]
fn duplicate_deeper_element() {
    let mut vm = loaded("0 1\n0 2\n0 3\n2 2\n11");
    assert_eq!(run_to_end(&mut vm).0, Ok(true));
    assert_eq!(vm.stack(), &vec![1, 2, 3, 1]);
}

#[test]
fn duplicate_beyond_depth_underflows() {
    let mut vm = loaded("0 5\n2 1\n11");
    assert_eq!(run_to_end(&mut vm).0, Err(Trap::StackUnderflow));
    assert_eq!(vm.stack(), &vec![5]);
}

#[test]
fn duplicate_negative_index_is_illegal_operand() {
    let mut vm = loaded("0 5\n2 -1\n11");
    assert_eq!(run_to_end(&mut vm).0, Err(Trap::IllegalOperand));
    assert_eq!(vm.stack(), &vec![5]);
}

#[test]
fn jump_if_loop_never_leaves_first_two_instructions() {
    let mut vm = loaded("0 1\n4 0\n11");
    for _ in 0..50 {
        assert_eq!(vm.instruction_pointer(), 0);
        assert_eq!(vm.execute_instruction(), Ok(None));
        assert_eq!(vm.instruction_pointer(), 1);
        assert_eq!(vm.execute_instruction(), Ok(None));
    }
    assert_eq!(vm.instruction_pointer(), 0);
    assert!(vm.stack().is_empty());
    assert!(!vm.is_halted());
}

#[test]
fn jump_if_loop_runs_out_of_steps() {
    let mut vm = loaded("0 1\n4 0\n11");
    let mut out = Vec::new();
    assert_eq!(vm.run(100, &mut out), Ok(false));
    assert_eq!(vm.instruction_pointer(), 0);
    assert!(!vm.is_halted());
    assert!(out.is_empty());
}

#[test]
fn jump_if_zero_falls_through_and_drops_condition() {
    let mut vm = loaded("0 9\n0 0\n4 0\n11");
    assert_eq!(run_to_end(&mut vm).0, Ok(true));
    assert_eq!(vm.stack(), &vec![9]);
    assert_eq!(vm.instruction_pointer(), 3);
}

#[test]
fn jump_if_on_empty_stack_underflows() {
    let mut vm = loaded("4 0");
    assert_eq!(vm.execute_instruction(), Err(Trap::StackUnderflow));
}

#[test]
fn jump_out_of_range_traps_on_next_fetch() {
    let mut vm = loaded("3 10\n11");
    assert_eq!(vm.execute_instruction(), Ok(None));
    assert_eq!(vm.instruction_pointer(), 10);
    assert_eq!(vm.execute_instruction(), Err(Trap::InvalidInstructionPointer));
}

#[test]
fn negative_jump_traps_on_next_fetch() {
    let mut vm = loaded("3 -1\n11");
    assert_eq!(run_to_end(&mut vm).0, Err(Trap::InvalidInstructionPointer));
}

#[test]
fn running_off_the_end_traps() {
    let mut vm = loaded("0 1");
    assert_eq!(run_to_end(&mut vm).0, Err(Trap::InvalidInstructionPointer));
    assert_eq!(vm.stack(), &vec![1]);
}

#[test]
fn dump_writes_top_and_keeps_it() {
    let mut vm = loaded("0 3\n10\n0 4\n6\n10\n11");
    assert_eq!(run_to_end(&mut vm), (Ok(true), vec![3, 7]));
    assert_eq!(vm.stack(), &vec![7]);
}

#[test]
fn dump_on_empty_stack_underflows() {
    let mut vm = loaded("10");
    assert_eq!(vm.execute_instruction(), Err(Trap::StackUnderflow));
}

#[test]
fn arithmetic_results() {
    let cases: [(&str, i64); 9] = [
        ("0 10\n0 3\n7\n11", 7),
        ("0 -6\n0 7\n8\n11", -42),
        ("0 7\n0 2\n9\n11", 3),
        ("0 -7\n0 2\n9\n11", -3),
        ("0 7\n0 -2\n9\n11", -3),
        ("0 -7\n0 -2\n9\n11", 3),
        ("0 -9223372036854775808\n0 -1\n9\n11", i64::MIN),
        ("0 4\n0 4\n5\n11", 1),
        ("0 4\n0 5\n5\n11", 0),
    ];
    for (source, expected) in cases {
        let mut vm = loaded(source);
        assert_eq!(run_to_end(&mut vm).0, Ok(true));
        assert_eq!(vm.stack(), &vec![expected], "{}", source);
    }
}

#[test]
fn multiply_wraps_around() {
    let mut vm = loaded("0 4611686018427387904\n0 2\n8\n11");
    assert_eq!(run_to_end(&mut vm).0, Ok(true));
    assert_eq!(vm.stack(), &vec![i64::MIN]);
}

#[test]
fn halted_engine_executes_nothing() {
    let mut vm = loaded("11\n0 1");
    assert_eq!(vm.execute_instruction(), Ok(None));
    assert!(vm.is_halted());
    assert_eq!(vm.execute_instruction(), Ok(None));
    assert!(vm.stack().is_empty());
    assert_eq!(vm.instruction_pointer(), 0);
}

#[test]
fn failed_load_leaves_engine_unchanged() {
    let mut vm = UVM::new();
    assert_eq!(vm.load_program("0 1\n1 2 3"), Err(UVMError::IllegalOperation));
    assert!(vm.program().is_empty());
}
