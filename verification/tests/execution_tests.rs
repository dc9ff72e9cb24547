use kaiforth::common::error::{ForthError, ForthErrorKind, ForthPhase};
use kaiforth::common::types::{ExecutionStatus, Op, TraceEvent};
use kaiforth::system::system::{Output, System, WordKind};
use kaiforth::vm::state::Vm;

fn system_with(code: &[(Op, u64)]) -> System {
    let mut sys = System::new(4096).unwrap();
    sys.register_core();
    for (op, data) in code {
        sys.code.push(*op, *data);
    }
    sys
}

/// Runs the interpreter until a step reports anything but `Done`.
fn run(vm: &mut Vm, sys: &mut System) -> Result<ExecutionStatus, ForthError> {
    loop {
        assert!(vm.can_step(sys));
        let r = vm.step_tier1(sys);
        match vm.settle(r) {
            Ok(ExecutionStatus::Done) => continue,
            other => return other,
        }
    }
}

fn stack(vm: &mut Vm) -> Vec<i64> {
    let mut out = Vec::new();
    let mut copy = vm.try_clone().unwrap();
    while let Ok(v) = copy.d_pop() {
        out.push(v);
    }
    out.reverse();
    out
}

fn exec_err(kind: ForthErrorKind) -> ForthError {
    ForthError::new(kind, ForthPhase::Execution)
}

#[test]
fn test_add_program() {
    let mut sys = system_with(&[(Op::Push, 10), (Op::Push, 20), (Op::Add, 0), (Op::Stop, 0)]);
    let mut vm = Vm::new().unwrap();
    assert_eq!(run(&mut vm, &mut sys), Ok(ExecutionStatus::Stop));
    assert_eq!(stack(&mut vm), vec![30]);
}

#[test]
fn test_past_end_stops() {
    let mut sys = system_with(&[]);
    let mut vm = Vm::new().unwrap();
    assert_eq!(vm.step_tier1(&mut sys), Ok(ExecutionStatus::Stop));
    assert_eq!(vm.ip, 0);
}

#[test]
fn test_invalid_opcode() {
    let mut sys = system_with(&[]);
    sys.code.ops.push(200);
    sys.code.data.push(0);
    let mut vm = Vm::new().unwrap();
    assert_eq!(vm.step_tier1(&mut sys), Err(exec_err(ForthErrorKind::InvalidOpcode)));
    assert_eq!(vm.ip, 0);
}

#[test]
fn test_divide_by_zero() {
    let mut sys = system_with(&[(Op::Push, 1), (Op::Push, 0), (Op::Div, 0)]);
    let mut vm = Vm::new().unwrap();
    assert_eq!(run(&mut vm, &mut sys), Err(exec_err(ForthErrorKind::DivideByZero)));
    // The divisor was taken, the dividend not yet.
    assert_eq!(stack(&mut vm), vec![1]);
}

#[test]
fn test_mod_by_zero_takes_both() {
    let mut sys = system_with(&[(Op::Push, 7), (Op::Push, 0), (Op::Mod, 0)]);
    let mut vm = Vm::new().unwrap();
    assert_eq!(run(&mut vm, &mut sys), Err(exec_err(ForthErrorKind::DivideByZero)));
    assert_eq!(stack(&mut vm), Vec::<i64>::new());
}

#[test]
fn test_divmod_truncates() {
    let mut sys = system_with(&[(Op::Push, (-7i64) as u64), (Op::Push, 2), (Op::DivMod, 0), (Op::Stop, 0)]);
    let mut vm = Vm::new().unwrap();
    run(&mut vm, &mut sys).unwrap();
    assert_eq!(stack(&mut vm), vec![-1, -3]);
}

#[test]
fn test_div_least_by_minus_one() {
    let mut sys = system_with(&[(Op::Push, i64::MIN as u64), (Op::Push, (-1i64) as u64), (Op::Div, 0), (Op::Stop, 0)]);
    let mut vm = Vm::new().unwrap();
    run(&mut vm, &mut sys).unwrap();
    assert_eq!(stack(&mut vm), vec![i64::MIN]);
}

#[test]
fn test_underflow_empties_stack() {
    let mut sys = system_with(&[(Op::Push, 5), (Op::Add, 0)]);
    let mut vm = Vm::new().unwrap();
    assert_eq!(run(&mut vm, &mut sys), Err(exec_err(ForthErrorKind::StackUnderflow)));
    assert_eq!(vm.d_depth, 0);
}

#[test]
fn test_stack_words() {
    let mut sys = system_with(&[
        (Op::Push, 1),
        (Op::Push, 2),
        (Op::Push, 3),
        (Op::Rot, 0),
        (Op::Over, 0),
        (Op::Swap, 0),
        (Op::Swap, 0),
        (Op::Tuck, 0),
        (Op::Stop, 0),
    ]);
    let mut vm = Vm::new().unwrap();
    run(&mut vm, &mut sys).unwrap();
    // 1 2 3 ROT -> 2 3 1; OVER -> 2 3 1 3; SWAP SWAP; TUCK -> 2 3 3 1 3
    assert_eq!(stack(&mut vm), vec![2, 3, 3, 1, 3]);
}

#[test]
fn test_pick_and_roll() {
    let mut sys = system_with(&[(Op::Push, 1), (Op::Push, 2), (Op::Push, 3), (Op::Push, 2), (Op::Pick, 0), (Op::Stop, 0)]);
    let mut vm = Vm::new().unwrap();
    run(&mut vm, &mut sys).unwrap();
    assert_eq!(stack(&mut vm), vec![1, 2, 3, 1]);

    let mut sys = system_with(&[(Op::Push, 1), (Op::Push, 2), (Op::Push, 3), (Op::Push, 2), (Op::Roll, 0), (Op::Stop, 0)]);
    let mut vm = Vm::new().unwrap();
    run(&mut vm, &mut sys).unwrap();
    assert_eq!(stack(&mut vm), vec![2, 3, 1]);

    let mut sys = system_with(&[(Op::Push, 1), (Op::Push, 5), (Op::Pick, 0)]);
    let mut vm = Vm::new().unwrap();
    assert_eq!(run(&mut vm, &mut sys), Err(exec_err(ForthErrorKind::StackUnderflow)));
    assert_eq!(stack(&mut vm), vec![1]);
}

#[test]
fn test_arithmetic_words() {
    let mut sys = system_with(&[
        (Op::Push, 1),
        (Op::Push, 70),
        (Op::LShift, 0),
        (Op::Push, (-1i64) as u64),
        (Op::Push, 60),
        (Op::RShift, 0),
        (Op::Push, (-9i64) as u64),
        (Op::Abs, 0),
        (Op::Push, 4),
        (Op::Negate, 0),
        (Op::Push, 6),
        (Op::Push, 3),
        (Op::Max, 0),
        (Op::Push, 0),
        (Op::IsZero, 0),
        (Op::Push, 2),
        (Op::Push, 5),
        (Op::Lt, 0),
        (Op::Stop, 0),
    ]);
    let mut vm = Vm::new().unwrap();
    run(&mut vm, &mut sys).unwrap();
    assert_eq!(stack(&mut vm), vec![i64::MIN, 15, 9, -4, 6, -1, -1]);
}

#[test]
fn test_fetch_store_roundtrip() {
    let mut sys = system_with(&[(Op::Push, 42), (Op::Push, 16), (Op::Store, 0), (Op::Push, 16), (Op::Fetch, 0), (Op::Stop, 0)]);
    let mut vm = Vm::new().unwrap();
    run(&mut vm, &mut sys).unwrap();
    assert_eq!(stack(&mut vm), vec![42]);
    assert_eq!(sys.memory.read_i64(16), Ok(42));
}

#[test]
fn test_memory_out_of_bounds() {
    let mut sys = system_with(&[(Op::Push, 4090), (Op::Fetch, 0)]);
    let mut vm = Vm::new().unwrap();
    assert_eq!(run(&mut vm, &mut sys), Err(exec_err(ForthErrorKind::MemoryOOB { addr: 4090, limit: 4096 })));
    assert_eq!(vm.d_depth, 0);
}

#[test]
fn test_here_allot_comma() {
    let mut sys = system_with(&[(Op::Push, 3), (Op::Allot, 0), (Op::Here, 0), (Op::Push, 5), (Op::Comma, 0), (Op::Here, 0), (Op::Stop, 0)]);
    let mut vm = Vm::new().unwrap();
    run(&mut vm, &mut sys).unwrap();
    // ALLOT 3 from 0; `,` writes at 3 and allots 8 from the next boundary, 8.
    assert_eq!(stack(&mut vm), vec![3, 16]);
    assert_eq!(sys.memory.read_i64(3), Ok(5));
}

#[test]
fn test_branches_and_jump_bounds() {
    let mut sys = system_with(&[(Op::Push, 0), (Op::JZ, 1), (Op::Push, 1), (Op::Push, 2), (Op::Stop, 0)]);
    let mut vm = Vm::new().unwrap();
    run(&mut vm, &mut sys).unwrap();
    assert_eq!(stack(&mut vm), vec![2]);

    let mut sys = system_with(&[(Op::Jump, 100)]);
    let mut vm = Vm::new().unwrap();
    assert_eq!(run(&mut vm, &mut sys), Err(exec_err(ForthErrorKind::JumpOutOfBounds { target: 101 })));
}

#[test]
fn test_do_loop() {
    let mut sys = system_with(&[(Op::Push, 3), (Op::Push, 0), (Op::Do, 0), (Op::I, 0), (Op::Loop, (-2i64) as u64), (Op::Stop, 0)]);
    let mut vm = Vm::new().unwrap();
    run(&mut vm, &mut sys).unwrap();
    assert_eq!(stack(&mut vm), vec![0, 1, 2]);
    assert!(vm.loop_stack.is_empty());
}

#[test]
fn test_call_and_return() {
    let mut sys = system_with(&[(Op::Call, 0), (Op::Stop, 0), (Op::Push, 5), (Op::Ret, 0)]);
    let idx = sys.dict.entries.len();
    sys.dict.insert("five".to_string(), WordKind::Defined(2));
    sys.code.patch_data(0, idx as u64);
    sys.trace_enabled = true;
    let mut vm = Vm::new().unwrap();
    assert_eq!(run(&mut vm, &mut sys), Ok(ExecutionStatus::Stop));
    assert_eq!(stack(&mut vm), vec![5]);
    assert!(sys.runtime_trace.contains(&TraceEvent::EnterWord(idx)));
    assert!(sys.runtime_trace.contains(&TraceEvent::ExitWord));
    assert!(sys.runtime_trace.contains(&TraceEvent::Op(0, Op::Call, idx as u64)));
}

#[test]
fn test_execute_primitive() {
    let mut sys = system_with(&[]);
    let dup = sys.dict.lookup("DUP").unwrap();
    sys.code.push(Op::Push, 7);
    sys.code.push(Op::Push, dup as u64);
    sys.code.push(Op::Execute, 0);
    sys.code.push(Op::Stop, 0);
    let mut vm = Vm::new().unwrap();
    run(&mut vm, &mut sys).unwrap();
    assert_eq!(stack(&mut vm), vec![7, 7]);
}

#[test]
fn test_execute_invalid_word() {
    let mut sys = system_with(&[(Op::Push, 100000), (Op::Execute, 0)]);
    let mut vm = Vm::new().unwrap();
    assert_eq!(run(&mut vm, &mut sys), Err(exec_err(ForthErrorKind::InvalidWord)));
}

#[test]
fn test_execute_colon_definition() {
    // 0: push idx, 1: execute, 2: push 1, 3: stop, 4: push 5, 5: ret
    let mut sys = system_with(&[(Op::Push, 0), (Op::Execute, 0), (Op::Push, 1), (Op::Stop, 0), (Op::Push, 5), (Op::Ret, 0)]);
    let idx = sys.dict.insert("five".to_string(), WordKind::Defined(4));
    sys.code.patch_data(0, idx as u64);
    let mut vm = Vm::new().unwrap();
    assert_eq!(run(&mut vm, &mut sys), Ok(ExecutionStatus::Stop));
    assert_eq!(stack(&mut vm), vec![5, 1]);
    assert!(vm.nested.is_empty());
}

#[test]
fn test_output_words() {
    let mut sys = system_with(&[(Op::Push, 25), (Op::Dot, 0), (Op::Push, 65), (Op::Emit, 0), (Op::Cr, 0), (Op::Stop, 0)]);
    let mut vm = Vm::new().unwrap();
    run(&mut vm, &mut sys).unwrap();
    assert_eq!(sys.output, vec![Output::Number(25), Output::Char(65), Output::Newline]);
}

#[test]
fn test_throw_and_unwind() {
    let mut sys = system_with(&[(Op::Push, 1), (Op::Catch, 0), (Op::Push, 2), (Op::Push, 9), (Op::Throw, 0)]);
    let mut vm = Vm::new().unwrap();
    assert_eq!(run(&mut vm, &mut sys), Ok(ExecutionStatus::Thrown(9)));
    assert_eq!(vm.after_step(Ok(ExecutionStatus::Thrown(9))), Ok(true));
    // Back at the handler, with the depth it recorded and the code pushed.
    assert_eq!(vm.ip, 2);
    assert_eq!(stack(&mut vm), vec![1, 9]);
    assert!(vm.exception_stack.is_empty());
    // With no handler left, an error ends the run.
    let e = exec_err(ForthErrorKind::StackUnderflow);
    assert_eq!(vm.after_step(Err(e)), Err(e));
    assert_eq!(vm.unwind_to_handler(1), Err(exec_err(ForthErrorKind::Exception)));
}

#[test]
fn test_yield_and_stop_end_run() {
    let mut vm = Vm::new().unwrap();
    assert_eq!(vm.after_step(Ok(ExecutionStatus::Yielded)), Ok(false));
    assert_eq!(vm.after_step(Ok(ExecutionStatus::Stop)), Ok(false));
    assert_eq!(vm.after_step(Ok(ExecutionStatus::Done)), Ok(true));
}

#[test]
fn test_return_stack_words() {
    let mut sys = system_with(&[(Op::Push, 8), (Op::ToR, 0), (Op::RFetch, 0), (Op::FromR, 0), (Op::FromR, 0)]);
    let mut vm = Vm::new().unwrap();
    assert_eq!(run(&mut vm, &mut sys), Err(exec_err(ForthErrorKind::ReturnStackUnderflow)));
    assert_eq!(stack(&mut vm), vec![8, 8]);
}

#[test]
fn test_settle_passes_status_through_at_top_level() {
    let mut vm = Vm::new().unwrap();
    assert_eq!(vm.settle(Ok(ExecutionStatus::Yielded)), Ok(ExecutionStatus::Yielded));
    let e = exec_err(ForthErrorKind::Abort);
    assert_eq!(vm.settle(Err(e)), Err(e));
}

#[test]
fn test_rollback_restores_lengths() {
    let mut vm = Vm::new().unwrap();
    vm.d_push(1).unwrap();
    vm.r_push(2).unwrap();
    let snap = vm.snapshot();
    vm.d_push(3).unwrap();
    vm.r_push(4).unwrap();
    vm.loop_stack.push(5);
    vm.ip = 99;
    vm.restore(&snap);
    assert_eq!(stack(&mut vm), vec![1]);
    assert_eq!(vm.r_stack, vec![2]);
    assert!(vm.loop_stack.is_empty());
    assert_eq!(vm.ip, 0);
    vm.rollback_state_full(0, 1, 2, 1, 0, 0, 0, false);
    assert_eq!(vm.loop_stack, vec![0, 0]);
}

fn run_each(seq: &[(Op, u64)]) -> (Result<ExecutionStatus, ForthError>, Vec<i64>) {
    let mut sys = system_with(&[]);
    let mut vm = Vm::new().unwrap();
    vm.d_push(7).unwrap();
    let mut last = Ok(ExecutionStatus::Done);
    for (op, data) in seq {
        last = vm.execute_op(*op, *data, &mut sys);
        if last != Ok(ExecutionStatus::Done) {
            break;
        }
    }
    (last, stack(&mut vm))
}

#[test]
fn test_folded_form_runs_the_same() {
    let seq = [(Op::Push, 4), (Op::Dup, 0), (Op::Add, 0), (Op::Push, 9), (Op::Swap, 0), (Op::Over, 0)];
    let (_, folded) = kaiforth::optimizer::contract::validate_sequence_contract(&seq).unwrap();
    let folded = folded.unwrap();
    assert_eq!(folded, vec![(Op::Push, 9), (Op::Push, 8), (Op::Push, 9)]);
    assert_eq!(run_each(&seq), run_each(&folded));
    assert_eq!(run_each(&seq).1, vec![7, 9, 8, 9]);
}

#[test]
fn test_fold_drops_a_division_by_zero() {
    // Folding assumes the sequence runs to its end: here the folded form is
    // empty while the sequence itself divides by zero.
    let seq = [(Op::Push, 1), (Op::Push, 0), (Op::Div, 0), (Op::Drop, 0)];
    let (_, folded) = kaiforth::optimizer::contract::validate_sequence_contract(&seq).unwrap();
    assert_eq!(folded, Some(vec![]));
    assert_eq!(run_each(&seq).0, Err(exec_err(ForthErrorKind::DivideByZero)));
    assert_eq!(run_each(&[]).0, Ok(ExecutionStatus::Done));
}
