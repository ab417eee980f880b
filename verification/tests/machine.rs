use mcl::compiler::compile;
use mcl::instr::Instr;
use mcl::interpreter::{compare, compute, InterpreterError, State, Value, VM};
use mcl::op::Op;

fn instr(op: Op, value: i64) -> Instr {
    Instr { op, value }
}

fn ints(values: &[i64]) -> Vec<Value> {
    values.iter().map(|v| Value::Integer(*v)).collect()
}

/// Runs a program on a fresh machine with room for `steps` steps.
fn run(program: &[Instr], steps: u64) -> (VM, Result<(), InterpreterError>) {
    let mut vm = VM::new();
    let result = vm.execute(program, steps);
    (vm, result)
}

/// Runs a program that starts by pushing `stack`, then performs `op`.
fn after(stack: &[i64], op: Instr) -> (VM, Result<(), InterpreterError>) {
    let mut program: Vec<Instr> = stack.iter().map(|v| instr(Op::Push, *v)).collect();
    program.push(op);
    run(&program, 1000)
}

#[test]
fn new_machine_is_running_at_zero_with_an_empty_stack() {
    let vm = VM::new();
    assert_eq!(vm.state(), State::Running);
    assert!(vm.is_running());
    assert_eq!(vm.pc(), 0);
    assert_eq!(vm.stack(), vec![]);
    assert_eq!(*vm.output(), Vec::<i64>::new());
}

#[test]
fn execute_add_and_print() {
    let program = vec![
        instr(Op::Push, 3),
        instr(Op::Push, 4),
        instr(Op::Add, 0),
        instr(Op::Print, 0),
    ];
    let (vm, result) = run(&program, 100);
    assert_eq!(result, Ok(()));
    assert_eq!(vm.state(), State::Halted);
    assert_eq!(vm.output_lines(), vec!["7".to_string()]);
    assert_eq!(*vm.output(), vec![7]);
    assert_eq!(vm.stack(), vec![]);
    assert_eq!(vm.pc(), 4);
}

#[test]
fn execute_divide_by_zero() {
    let program = vec![instr(Op::Push, 1), instr(Op::Push, 0), instr(Op::Div, 0)];
    let (vm, result) = run(&program, 100);
    assert_eq!(result, Err(InterpreterError::DivideByZero));
    assert_eq!(vm.state(), State::Faulted(InterpreterError::DivideByZero));
    assert_eq!(vm.output_lines(), Vec::<String>::new());
    assert_eq!(vm.pc(), 2);
    // Both operands were popped before the division failed.
    assert_eq!(vm.stack(), vec![]);
}

#[test]
fn execute_pop_on_an_empty_stack() {
    let (vm, result) = run(&[instr(Op::Pop, 0)], 100);
    assert_eq!(result, Err(InterpreterError::StackEmpty));
    assert_eq!(vm.state(), State::Faulted(InterpreterError::StackEmpty));
    assert_eq!(vm.pc(), 0);
}

#[test]
fn execute_the_empty_program_halts() {
    let (vm, result) = run(&[], 1);
    assert_eq!(result, Ok(()));
    assert_eq!(vm.state(), State::Halted);
    assert_eq!(vm.pc(), 0);
}

#[test]
fn execute_without_steps_changes_nothing() {
    let (vm, result) = run(&[instr(Op::Push, 1)], 0);
    assert_eq!(result, Ok(()));
    assert_eq!(vm.state(), State::Running);
    assert_eq!(vm.pc(), 0);
    assert_eq!(vm.stack(), vec![]);
}

#[test]
fn the_end_of_the_program_takes_a_step_of_its_own() {
    let program = vec![instr(Op::Push, 1), instr(Op::Push, 2)];
    let (vm, result) = run(&program, 2);
    assert_eq!(result, Ok(()));
    assert_eq!(vm.state(), State::Running);
    assert_eq!(vm.pc(), 2);
    let (vm, _) = run(&program, 3);
    assert_eq!(vm.state(), State::Halted);
    assert_eq!(vm.stack(), ints(&[1, 2]));
}

#[test]
fn step_by_step_equals_execute() {
    let program = compile("push 2 push 5 mul dup print push 3 sub print").unwrap();
    let (whole, _) = run(&program, 100);
    let mut vm = VM::new();
    let mut steps: u32 = 0;
    while vm.is_running() {
        vm.step(&program);
        steps += 1;
    }
    assert_eq!(steps, 9);
    assert_eq!(vm.state(), whole.state());
    assert_eq!(vm.stack(), whole.stack());
    assert_eq!(vm.output(), whole.output());
    assert_eq!(*vm.output(), vec![10, 7]);
}

#[test]
fn execute_in_pieces_equals_execute_at_once() {
    let program = compile("push 10 :loop dup print dec dup jnz :loop").unwrap();
    let (whole, _) = run(&program, 1000);
    let mut vm = VM::new();
    while vm.is_running() {
        assert_eq!(vm.execute(&program, 7), Ok(()));
    }
    assert_eq!(vm.state(), State::Halted);
    assert_eq!(vm.stack(), whole.stack());
    assert_eq!(vm.output(), whole.output());
    assert_eq!(*vm.output(), vec![10, 9, 8, 7, 6, 5, 4, 3, 2, 1]);
}

#[test]
fn a_stopped_machine_stays_as_it_is() {
    let program = vec![instr(Op::Push, 1), instr(Op::Halt, 0), instr(Op::Push, 2)];
    let (mut vm, result) = run(&program, 100);
    assert_eq!(result, Ok(()));
    assert_eq!(vm.state(), State::Halted);
    assert_eq!(vm.execute(&[instr(Op::Push, 9)], 100), Ok(()));
    vm.step(&program);
    assert_eq!(vm.state(), State::Halted);
    assert_eq!(vm.stack(), ints(&[1]));
    assert_eq!(vm.pc(), 1);

    let (mut vm, _) = run(&[instr(Op::Add, 0)], 100);
    assert_eq!(vm.execute(&[instr(Op::Push, 9)], 100), Err(InterpreterError::StackEmpty));
    assert_eq!(vm.state(), State::Faulted(InterpreterError::StackEmpty));
    assert_eq!(vm.stack(), vec![]);
}

#[test]
fn an_endless_loop_runs_out_of_steps() {
    let program = compile(":a jmp :a").unwrap();
    let (vm, result) = run(&program, 10_000);
    assert_eq!(result, Ok(()));
    assert!(vm.is_running());
    assert_eq!(vm.pc(), 0);
}

#[test]
fn halt_discards_the_remaining_instructions() {
    let program = compile("push 1 print halt push 2 print").unwrap();
    let (vm, result) = run(&program, 100);
    assert_eq!(result, Ok(()));
    assert_eq!(vm.state(), State::Halted);
    assert_eq!(*vm.output(), vec![1]);
    assert_eq!(vm.pc(), 2);
}

#[test]
fn push_and_pop() {
    let (vm, _) = after(&[1, 2], instr(Op::Push, -3));
    assert_eq!(vm.stack(), ints(&[1, 2, -3]));
    let (vm, _) = after(&[1, 2], instr(Op::Pop, 0));
    assert_eq!(vm.stack(), ints(&[1]));
}

#[test]
fn print_pops_and_emits() {
    let (vm, result) = after(&[1, -2], instr(Op::Print, 0));
    assert_eq!(result, Ok(()));
    assert_eq!(vm.stack(), ints(&[1]));
    assert_eq!(vm.output_lines(), vec!["-2".to_string()]);
    let (vm, result) = after(&[], instr(Op::Print, 0));
    assert_eq!(result, Err(InterpreterError::StackEmpty));
    assert_eq!(*vm.output(), Vec::<i64>::new());
}

#[test]
fn dup_swap_over_clear() {
    let (vm, _) = after(&[1, 2], instr(Op::Dup, 0));
    assert_eq!(vm.stack(), ints(&[1, 2, 2]));
    let (vm, _) = after(&[1, 2, 3], instr(Op::Swap, 0));
    assert_eq!(vm.stack(), ints(&[1, 3, 2]));
    let (vm, _) = after(&[1, 2, 3], instr(Op::Over, 0));
    assert_eq!(vm.stack(), ints(&[1, 2, 3, 2]));
    let (vm, _) = after(&[1, 2, 3], instr(Op::Clear, 0));
    assert_eq!(vm.stack(), vec![]);
    let (vm, result) = after(&[], instr(Op::Clear, 0));
    assert_eq!(result, Ok(()));
    assert_eq!(vm.stack(), vec![]);
    let (vm, _) = after(&[1, 2, 3], instr(Op::Dup2, 0));
    assert_eq!(vm.stack(), ints(&[1, 2, 3, 2, 3]));
}

#[test]
fn stack_errors_of_dup_swap_over() {
    assert_eq!(after(&[], instr(Op::Dup, 0)).1, Err(InterpreterError::StackEmpty));
    assert_eq!(after(&[], instr(Op::Swap, 0)).1, Err(InterpreterError::StackUnderflow));
    assert_eq!(after(&[1], instr(Op::Swap, 0)).1, Err(InterpreterError::StackUnderflow));
    assert_eq!(after(&[], instr(Op::Over, 0)).1, Err(InterpreterError::StackUnderflow));
    assert_eq!(after(&[1], instr(Op::Over, 0)).1, Err(InterpreterError::StackUnderflow));
    assert_eq!(after(&[1], instr(Op::Dup2, 0)).1, Err(InterpreterError::StackUnderflow));
    let (vm, _) = after(&[1], instr(Op::Swap, 0));
    assert_eq!(vm.stack(), ints(&[1]));
    assert_eq!(vm.pc(), 1);
}

#[test]
fn arithmetic_takes_the_second_value_as_left_operand() {
    assert_eq!(after(&[9, 7, 2], instr(Op::Add, 0)).0.stack(), ints(&[9, 9]));
    assert_eq!(after(&[9, 7, 2], instr(Op::Sub, 0)).0.stack(), ints(&[9, 5]));
    assert_eq!(after(&[9, 7, 2], instr(Op::Mul, 0)).0.stack(), ints(&[9, 14]));
    assert_eq!(after(&[9, 7, 2], instr(Op::Div, 0)).0.stack(), ints(&[9, 3]));
    assert_eq!(after(&[9, 7, 2], instr(Op::Mod, 0)).0.stack(), ints(&[9, 1]));
}

#[test]
fn arithmetic_on_too_few_values() {
    for op in [Op::Add, Op::Sub, Op::Mul, Op::Div, Op::Mod] {
        assert_eq!(after(&[], instr(op, 0)).1, Err(InterpreterError::StackEmpty));
        // The one value is popped before the second pop fails.
        let (vm, result) = after(&[5], instr(op, 0));
        assert_eq!(result, Err(InterpreterError::StackEmpty));
        assert_eq!(vm.stack(), vec![]);
        assert_eq!(vm.pc(), 1);
        let (vm, result) = after(&[], instr(op, 0));
        assert_eq!(result, Err(InterpreterError::StackEmpty));
        assert_eq!(vm.stack(), vec![]);
        assert_eq!(vm.pc(), 0);
    }
}

#[test]
fn division_rounds_toward_zero() {
    assert_eq!(compute(Op::Div, 7, 2), Ok(3));
    assert_eq!(compute(Op::Div, -7, 2), Ok(-3));
    assert_eq!(compute(Op::Div, 7, -2), Ok(-3));
    assert_eq!(compute(Op::Div, -7, -2), Ok(3));
    assert_eq!(compute(Op::Div, 0, -2), Ok(0));
    assert_eq!(compute(Op::Mod, 7, 2), Ok(1));
    assert_eq!(compute(Op::Mod, -7, 2), Ok(-1));
    assert_eq!(compute(Op::Mod, 7, -2), Ok(1));
    assert_eq!(compute(Op::Mod, -7, -2), Ok(-1));
    assert_eq!(compute(Op::Mod, -8, 2), Ok(0));
}

#[test]
fn division_by_zero() {
    assert_eq!(compute(Op::Div, 1, 0), Err(InterpreterError::DivideByZero));
    assert_eq!(compute(Op::Mod, 1, 0), Err(InterpreterError::DivideByZero));
    assert_eq!(compute(Op::Div, 0, 0), Err(InterpreterError::DivideByZero));
    let (vm, result) = after(&[4, 0], instr(Op::Mod, 0));
    assert_eq!(result, Err(InterpreterError::DivideByZero));
    assert_eq!(vm.stack(), vec![]);
    let (vm, result) = after(&[9, 4, 0], instr(Op::Div, 0));
    assert_eq!(result, Err(InterpreterError::DivideByZero));
    assert_eq!(vm.state(), State::Faulted(InterpreterError::DivideByZero));
    assert_eq!(vm.stack(), ints(&[9]));
    assert_eq!(vm.pc(), 3);
    assert_eq!(*vm.output(), Vec::<i64>::new());
}

#[test]
fn arithmetic_wraps_around() {
    assert_eq!(compute(Op::Add, i64::MAX, 1), Ok(i64::MIN));
    assert_eq!(compute(Op::Add, i64::MIN, -1), Ok(i64::MAX));
    assert_eq!(compute(Op::Sub, i64::MIN, 1), Ok(i64::MAX));
    assert_eq!(compute(Op::Sub, 0, i64::MIN), Ok(i64::MIN));
    assert_eq!(compute(Op::Mul, i64::MAX, 2), Ok(-2));
    assert_eq!(compute(Op::Mul, i64::MIN, -1), Ok(i64::MIN));
    assert_eq!(compute(Op::Mul, 1 << 32, 1 << 32), Ok(0));
    assert_eq!(compute(Op::Div, i64::MIN, -1), Ok(i64::MIN));
    assert_eq!(compute(Op::Mod, i64::MIN, -1), Ok(0));
}

#[test]
fn inc_and_dec_change_the_top_in_place() {
    assert_eq!(after(&[1, 5], instr(Op::Inc, 0)).0.stack(), ints(&[1, 6]));
    assert_eq!(after(&[1, 5], instr(Op::Dec, 0)).0.stack(), ints(&[1, 4]));
    assert_eq!(after(&[i64::MAX], instr(Op::Inc, 0)).0.stack(), ints(&[i64::MIN]));
    assert_eq!(after(&[i64::MIN], instr(Op::Dec, 0)).0.stack(), ints(&[i64::MAX]));
    assert_eq!(after(&[], instr(Op::Inc, 0)).1, Err(InterpreterError::StackEmpty));
    assert_eq!(after(&[], instr(Op::Dec, 0)).1, Err(InterpreterError::StackEmpty));
}

#[test]
fn comparisons_take_the_second_value_as_left_operand() {
    assert!(compare(Op::Je, 2, 2));
    assert!(!compare(Op::Je, 1, 2));
    assert!(compare(Op::Jn, 1, 2));
    assert!(!compare(Op::Jn, 2, 2));
    assert!(compare(Op::Jg, 3, 2));
    assert!(!compare(Op::Jg, 2, 2));
    assert!(!compare(Op::Jg, 1, 2));
    assert!(compare(Op::Jl, 1, 2));
    assert!(!compare(Op::Jl, 2, 2));
    assert!(compare(Op::Jge, 2, 2));
    assert!(compare(Op::Jge, 3, 2));
    assert!(!compare(Op::Jge, 1, 2));
    assert!(compare(Op::Jle, 2, 2));
    assert!(compare(Op::Jle, -3, 2));
    assert!(!compare(Op::Jle, 3, 2));
}

/// The output of `push a push b <jump> :t push 1 print halt :t push 2 print`.
fn taken(op: Op, a: i64, b: i64) -> bool {
    let program = vec![
        instr(Op::Push, a),
        instr(Op::Push, b),
        instr(op, 6),
        instr(Op::Push, 1),
        instr(Op::Print, 0),
        instr(Op::Halt, 0),
        instr(Op::Push, 2),
        instr(Op::Print, 0),
    ];
    let (vm, result) = run(&program, 100);
    assert_eq!(result, Ok(()));
    assert_eq!(vm.stack(), vec![]);
    *vm.output() == vec![2]
}

#[test]
fn comparing_jumps_pop_both_values() {
    assert!(taken(Op::Je, 4, 4));
    assert!(!taken(Op::Je, 4, 5));
    assert!(taken(Op::Jn, 4, 5));
    assert!(!taken(Op::Jn, 4, 4));
    assert!(taken(Op::Jg, 5, 4));
    assert!(!taken(Op::Jg, 4, 5));
    assert!(taken(Op::Jl, 4, 5));
    assert!(!taken(Op::Jl, 5, 4));
    assert!(taken(Op::Jge, 4, 4));
    assert!(!taken(Op::Jge, 3, 4));
    assert!(taken(Op::Jle, 4, 4));
    assert!(!taken(Op::Jle, 5, 4));
}

#[test]
fn comparing_jumps_need_two_values() {
    for op in [Op::Je, Op::Jn, Op::Jg, Op::Jl, Op::Jge, Op::Jle] {
        assert_eq!(after(&[], instr(op, 0)).1, Err(InterpreterError::StackUnderflow));
        let (vm, result) = after(&[1], instr(op, 0));
        assert_eq!(result, Err(InterpreterError::StackUnderflow));
        assert_eq!(vm.stack(), ints(&[1]));
    }
}

#[test]
fn jz_and_jnz_pop_one_value() {
    let program = |op: Op, top: i64| {
        vec![
            instr(Op::Push, 8),
            instr(Op::Push, top),
            instr(op, 4),
            instr(Op::Halt, 0),
            instr(Op::Push, 1),
        ]
    };
    let (vm, _) = run(&program(Op::Jz, 0), 100);
    assert_eq!(vm.stack(), ints(&[8, 1]));
    let (vm, _) = run(&program(Op::Jz, 3), 100);
    assert_eq!(vm.stack(), ints(&[8]));
    let (vm, _) = run(&program(Op::Jnz, 3), 100);
    assert_eq!(vm.stack(), ints(&[8, 1]));
    let (vm, _) = run(&program(Op::Jnz, 0), 100);
    assert_eq!(vm.stack(), ints(&[8]));
    assert_eq!(after(&[], instr(Op::Jz, 0)).1, Err(InterpreterError::StackEmpty));
    assert_eq!(after(&[], instr(Op::Jnz, 0)).1, Err(InterpreterError::StackEmpty));
}

#[test]
fn jump_to_the_end_of_the_program_halts() {
    let program = vec![instr(Op::Jmp, 2), instr(Op::Push, 1)];
    let (vm, result) = run(&program, 100);
    assert_eq!(result, Ok(()));
    assert_eq!(vm.state(), State::Halted);
    assert_eq!(vm.stack(), vec![]);
    assert_eq!(vm.pc(), 2);
}

#[test]
fn jump_outside_the_program_faults() {
    for target in [3, -1, i64::MAX, i64::MIN] {
        let program = vec![instr(Op::Push, 1), instr(Op::Jmp, target)];
        let (vm, result) = run(&program, 100);
        assert_eq!(result, Err(InterpreterError::AddressOutOfRange));
        assert_eq!(vm.state(), State::Faulted(InterpreterError::AddressOutOfRange));
        assert_eq!(vm.pc(), 1);
        assert_eq!(vm.stack(), ints(&[1]));
    }
}

#[test]
fn a_jump_that_is_not_taken_does_not_look_at_its_address() {
    let program = vec![instr(Op::Push, 1), instr(Op::Jz, 99), instr(Op::Push, 2)];
    let (vm, result) = run(&program, 100);
    assert_eq!(result, Ok(()));
    assert_eq!(vm.stack(), ints(&[2]));
    let program = vec![instr(Op::Push, 0), instr(Op::Jz, 99), instr(Op::Push, 2)];
    let (vm, result) = run(&program, 100);
    assert_eq!(result, Err(InterpreterError::AddressOutOfRange));
    // The tested value was popped before the jump failed.
    assert_eq!(vm.stack(), vec![]);
    assert_eq!(vm.pc(), 1);
}

#[test]
fn a_failing_jump_has_popped_its_operands() {
    let (vm, result) = after(&[7, 1, 1], instr(Op::Je, 99));
    assert_eq!(result, Err(InterpreterError::AddressOutOfRange));
    assert_eq!(vm.stack(), ints(&[7]));
    assert_eq!(vm.pc(), 3);
    let (vm, result) = after(&[7, 5], instr(Op::Jnz, -1));
    assert_eq!(result, Err(InterpreterError::AddressOutOfRange));
    assert_eq!(vm.stack(), ints(&[7]));
    let (vm, result) = after(&[7, 5], instr(Op::Jmp, 99));
    assert_eq!(result, Err(InterpreterError::AddressOutOfRange));
    assert_eq!(vm.stack(), ints(&[7, 5]));
}

#[test]
fn a_counter_beyond_the_program_faults() {
    let long = compile("push 1 push 2 push 3").unwrap();
    let mut vm = VM::new();
    assert_eq!(vm.execute(&long, 3), Ok(()));
    assert_eq!(vm.pc(), 3);
    assert!(vm.is_running());
    let short = compile("push 1").unwrap();
    assert_eq!(vm.execute(&short, 1), Err(InterpreterError::AddressOutOfRange));
    assert_eq!(vm.stack(), ints(&[1, 2, 3]));
}

#[test]
fn countdown_program() {
    let text = "
        push 3
        :loop
        dup print
        dec
        dup jnz :loop
        pop
        halt";
    let program = compile(text).unwrap();
    let (vm, result) = run(&program, 1000);
    assert_eq!(result, Ok(()));
    assert_eq!(vm.state(), State::Halted);
    assert_eq!(vm.output_lines(), vec!["3".to_string(), "2".to_string(), "1".to_string()]);
    assert_eq!(vm.stack(), vec![]);
}

#[test]
fn take_output_drains_the_output() {
    let program = compile("push 1 print push -2 print push 3").unwrap();
    let mut vm = VM::new();
    assert_eq!(vm.execute(&program, 2), Ok(()));
    assert_eq!(vm.take_output(), vec![1]);
    assert_eq!(*vm.output(), Vec::<i64>::new());
    assert_eq!(vm.execute(&program, 100), Ok(()));
    assert_eq!(vm.take_output(), vec![-2]);
    assert_eq!(vm.take_output(), Vec::<i64>::new());
    assert_eq!(vm.stack(), ints(&[3]));
    assert_eq!(vm.state(), State::Halted);
}

#[test]
fn compiled_encoded_and_decoded_program_runs_the_same() {
    let program = compile("push 6 push 7 mul print push -5 print").unwrap();
    let bytes = mcl::codec::encode_instructions(&program).unwrap();
    let decoded = mcl::codec::decode_instructions(bytes).unwrap();
    assert_eq!(decoded, program);
    let (vm, result) = run(&decoded, 100);
    assert_eq!(result, Ok(()));
    assert_eq!(vm.output_lines(), vec!["42".to_string(), "-5".to_string()]);
}
