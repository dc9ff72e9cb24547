use kaiforth::common::error::ForthError;
use kaiforth::common::types::Op;
use kaiforth::jit::runtime::JitTarget;
use kaiforth::system::system::System;
use kaiforth::vm::state::Vm;

/// The run loop of the interpreter tier: the optimizer is consulted when it
/// is due and compiles for an x86_64 host; every step is interpreted.
fn run_loop(vm: &mut Vm, sys: &mut System) -> Result<(), ForthError> {
    let target = JitTarget { x86_64: true, windows: false };
    loop {
        if sys.optimizer.should_run_optimizer() {
            sys.optimizer.observe_runtime_traces(&mut sys.runtime_trace);
            sys.synchronize_jit(target, 0)?;
        }
        assert!(vm.can_step(sys));
        let r = vm.step_tier1(sys);
        if !vm.after_step(r)? {
            return Ok(());
        }
    }
}

#[test]
fn test_jit_divergence_detection() {
    let mut sys = System::new(1024).unwrap();
    sys.paranoid_mode = true;
    sys.optimizer.next_opt_threshold = 1;
    sys.code.push(Op::Push, 10);
    sys.code.push(Op::Push, 20);
    sys.code.push(Op::Add, 0);
    sys.code.push(Op::Ret, 0);
    let mut vm = Vm::new().unwrap();
    run_loop(&mut vm, &mut sys).unwrap();
    assert_eq!(vm.d_pop().unwrap(), 30);
}

#[test]
fn test_jit_divergence_forced() {
    let mut sys = System::new(1024 * 1024).expect("System init failed");
    let mut vm = Vm::new().expect("VM init failed");
    sys.paranoid_mode = false;
    sys.trace_enabled = true;
    sys.optimizer.next_opt_threshold = 1;
    sys.optimizer.score_threshold = 1;
    for _ in 0..10 {
        sys.code.push(Op::Push, 10);
        sys.code.push(Op::Push, 20);
        sys.code.push(Op::Add, 0);
        sys.code.push(Op::Drop, 0);
    }
    sys.code.push(Op::Stop, 0);
    let x86 = JitTarget { x86_64: true, windows: false };
    for _ in 0..50 {
        vm.ip = 0;
        vm.d_depth = 0;
        let _ = run_loop(&mut vm, &mut sys);
        sys.optimizer.observe_runtime_traces(&mut sys.runtime_trace);
        let _ = sys.synchronize_jit(x86, 0);
    }
    assert!(sys.jit.blocks.len() > 0, "JIT should have compiled blocks after 200 runs");

    // A host that is not x86_64 compiles nothing.
    let mut other = System::new(1024).unwrap();
    other.trace_enabled = true;
    other.optimizer.score_threshold = 1;
    other.code.push(Op::Push, 1);
    other.code.push(Op::Dup, 0);
    other.code.push(Op::Stop, 0);
    let mut vm2 = Vm::new().unwrap();
    let _ = run_loop(&mut vm2, &mut other);
    other.optimizer.observe_runtime_traces(&mut other.runtime_trace);
    assert!(!other.optimizer.pending_jit.is_empty());
    let _ = other.synchronize_jit(JitTarget { x86_64: false, windows: false }, 0);
    assert_eq!(other.jit.blocks.len(), 0, "JIT must not compile on non-x86_64");
}

#[test]
fn test_loop_stress() {
    let mut sys = System::new(1024 * 1024).expect("System init failed");
    let mut vm = Vm::new().expect("VM init failed");
    sys.paranoid_mode = true;
    sys.trace_enabled = true;
    sys.optimizer.next_opt_threshold = 1;
    sys.optimizer.score_threshold = 1;
    sys.code.push(Op::Push, 10);
    sys.code.push(Op::Push, 0);
    sys.code.push(Op::Do, 0);
    sys.code.push(Op::Push, 1);
    sys.code.push(Op::Add, 0);
    sys.code.push(Op::Loop, -2i64 as u64);
    sys.code.push(Op::Stop, 0);
    for _ in 0..20 {
        vm.ip = 0;
        vm.d_depth = 0;
        vm.r_stack.clear();
        vm.loop_stack.clear();
        let _ = run_loop(&mut vm, &mut sys);
        sys.optimizer.observe_runtime_traces(&mut sys.runtime_trace);
        let _ = sys.synchronize_jit(JitTarget { x86_64: true, windows: false }, 0);
    }
}

#[test]
fn test_loop_stack_torture() {
    let mut sys = System::new(1024 * 1024).expect("System Init Fail");
    sys.paranoid_mode = true;
    sys.trace_enabled = true;
    let mut vm = Vm::new().expect("VM Init Fail");
    sys.code.push(Op::Push, 10);
    sys.code.push(Op::Push, 0);
    sys.code.push(Op::Do, 0);
    sys.code.push(Op::I, 0);
    sys.code.push(Op::Push, 1);
    sys.code.push(Op::Add, 0);
    sys.code.push(Op::Loop, -3i64 as u64);
    sys.code.push(Op::Stop, 0);
    for _ in 0..150 {
        vm.ip = 0;
        vm.d_depth = 0;
        vm.r_stack.clear();
        vm.loop_stack.clear();
        let _ = run_loop(&mut vm, &mut sys);
    }
    // Each run ends with the loop index plus one on the stack.
    assert_eq!(vm.d_depth, 1);
    assert_eq!(vm.d_pop(), Ok(10));
}
