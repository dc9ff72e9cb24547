use kaiforth::common::error::{ForthError, ForthErrorKind, ForthPhase};
use kaiforth::system::system::System;
use kaiforth::vm::state::Vm;

#[test]
fn test_stack_hardening() {
    let _sys = System::new(1024 * 1024).unwrap();
    // Pushing too much is an error, not memory corruption.
    let mut vm = Vm::new().unwrap();
    let mut failures = 0;
    for _ in 0..1025 {
        if vm.d_push(1).is_err() {
            failures += 1;
        }
    }
    // The data stack holds 1022 values; the rest are refused.
    assert_eq!(failures, 3);
    assert_eq!(vm.d_depth, 1022);
    assert!(vm.verify_canaries().is_ok());
    assert_eq!(
        vm.d_push(7),
        Err(ForthError::new(ForthErrorKind::StackOverflow, ForthPhase::Execution))
    );
}

#[test]
fn test_stack_push_pop_roundtrip() {
    let mut vm = Vm::new().unwrap();
    vm.d_push(-5).unwrap();
    vm.d_push(i64::MAX).unwrap();
    assert_eq!(vm.d_pop(), Ok(i64::MAX));
    assert_eq!(vm.d_pop(), Ok(-5));
    assert_eq!(
        vm.d_pop(),
        Err(ForthError::new(ForthErrorKind::StackUnderflow, ForthPhase::Execution))
    );
    assert!(vm.verify_canaries().is_ok());
}

#[test]
fn test_return_and_float_stacks() {
    let mut vm = Vm::new().unwrap();
    assert_eq!(
        vm.r_pop(),
        Err(ForthError::new(ForthErrorKind::ReturnStackUnderflow, ForthPhase::Execution))
    );
    vm.r_push(3).unwrap();
    assert_eq!(vm.r_fetch(), Ok(3));
    assert_eq!(vm.r_pop(), Ok(3));
    for _ in 0..1024 {
        vm.r_push(1).unwrap();
    }
    assert_eq!(
        vm.r_push(1),
        Err(ForthError::new(ForthErrorKind::ReturnStackOverflow, ForthPhase::Execution))
    );
    vm.f_push_bits(1.5f64.to_bits()).unwrap();
    assert_eq!(vm.f_pop_bits().map(f64::from_bits), Ok(1.5));
}

#[test]
fn test_clone_is_independent() {
    let mut vm = Vm::new().unwrap();
    vm.d_push(11).unwrap();
    vm.r_push(4).unwrap();
    let mut copy = vm.try_clone().unwrap();
    assert_eq!(copy.d_pop(), Ok(11));
    assert_eq!(copy.r_stack, vec![4]);
    assert_eq!(vm.d_pop(), Ok(11));
    assert!(copy.verify_canaries().is_ok());
}
