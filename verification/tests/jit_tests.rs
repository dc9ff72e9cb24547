use kaiforth::common::error::{ForthError, ForthErrorKind, ForthPhase};
use kaiforth::common::types::{MemoryAccess, Op, SemanticContract};
use kaiforth::jit::abi::{check_entry, JitBuffers, JitContext};
use kaiforth::optimizer::analysis::PatternContext;
use kaiforth::optimizer::contract::validate_sequence_contract;
use kaiforth::jit::emit::emit_super;
use kaiforth::jit::guard::{Divergence, JitOutcome};
use kaiforth::common::types::ExecutionStatus;
use kaiforth::jit::runtime::{JitEngine, JitTarget};
use kaiforth::system::system::System;
use kaiforth::vm::state::Vm;

fn exec_err(kind: ForthErrorKind) -> ForthError {
    ForthError::new(kind, ForthPhase::Execution)
}

fn pure_contract() -> SemanticContract {
    SemanticContract {
        pop_d: 0,
        push_d: 1,
        max_d: 2,
        pop_r: 0,
        push_r: 0,
        max_r: 0,
        mem: MemoryAccess { read_set: vec![], write_set: vec![], unknown_read: false, unknown_write: false, alias_barrier: false },
        pure: true,
        side_effects: false,
    }
}

fn buffers() -> JitBuffers {
    JitBuffers {
        d_stack: 0x1000,
        r_shadow: 0x2000,
        memory: 0x3000,
        memory_len: 4096,
        journal: 0x4000,
        l_shadow: 0x5000,
        exception_stack: 0x6000,
        path_trace: 0x7000,
        r_capacity: 256,
        l_capacity: 128,
    }
}

#[test]
fn test_emit_header_by_convention() {
    let sysv = emit_super(0, &[(Op::Push, 1)], false, 1).unwrap();
    let win = emit_super(0, &[(Op::Push, 1)], true, 1).unwrap();
    assert_eq!(&sysv[0..3], &[0x53, 0x41, 0x54]);
    assert_eq!(&sysv[24..27], &[0x48, 0x89, 0xFB]);
    assert_eq!(&win[24..27], &[0x48, 0x89, 0xCB]);
    assert_eq!(sysv.len() % 16, 0);
}

#[test]
fn test_emit_rejects_unsupported_and_wild_jumps() {
    assert_eq!(emit_super(0, &[(Op::Call, 1)], false, 1), Err(ForthErrorKind::InvalidOpcode));
    assert_eq!(
        emit_super(0, &[(Op::Jump, 5)], false, 1),
        Err(ForthErrorKind::JumpOutOfBounds { target: 6 })
    );
    // A jump to the end of the block is in bounds.
    assert!(emit_super(0, &[(Op::Jump, 0)], false, 1).is_ok());
}

#[test]
fn test_compile_super_installs_block() {
    let mut jit = JitEngine::new();
    let target = JitTarget { x86_64: true, windows: false };
    let ops = [(Op::Push, 10), (Op::Push, 20), (Op::Add, 0)];
    jit.compile_super(4, &ops, &pure_contract(), None, target, 77).unwrap();
    let block = jit.blocks.get(&4).unwrap();
    assert_eq!(block.original_ops_len, 3);
    assert!(!block.is_poisoned);
    assert_eq!(block.last_retry, 77);
    let code = emit_super(4, &ops, false, 7).unwrap();
    assert_eq!(&block.code[..code.len()], &code[..]);
    assert_eq!(block.code.len(), 4096);
}

#[test]
fn test_compile_super_refusals() {
    let mut jit = JitEngine::new();
    let other = JitTarget { x86_64: false, windows: false };
    assert_eq!(
        jit.compile_super(0, &[(Op::Push, 1)], &pure_contract(), None, other, 0),
        Err(ForthError::new(ForthErrorKind::OptimizationFailed, ForthPhase::Compilation))
    );
    let x86 = JitTarget { x86_64: true, windows: false };
    assert_eq!(
        jit.compile_super(0, &[(Op::Call, 1)], &pure_contract(), None, x86, 0),
        Err(ForthError::new(ForthErrorKind::InvalidOpcode, ForthPhase::Compilation))
    );
    let long = vec![(Op::Noop, 0); 300];
    assert_eq!(
        jit.compile_super(0, &long, &pure_contract(), None, x86, 0),
        Err(ForthError::new(ForthErrorKind::Abort, ForthPhase::Compilation))
    );
    assert!(jit.blocks.is_empty());
}

#[test]
fn test_poisoned_block_retried_later() {
    let mut jit = JitEngine::new();
    let x86 = JitTarget { x86_64: true, windows: false };
    jit.compile_super(0, &[(Op::Push, 1)], &pure_contract(), None, x86, 0).unwrap();
    assert!(jit.get_block(0, 0).is_some());
    jit.poison_block(0, "test".to_string(), 100);
    assert!(jit.get_block(0, 100).is_none());
    let b = jit.blocks.get(&0).unwrap();
    assert_eq!(b.poison_count, 1);
    assert_eq!(b.poison_reason, Some("test".to_string()));
    assert!(jit.get_block(0, 100_000).is_some());
    assert!(jit.get_block(1, 0).is_none());
}

#[test]
fn test_context_validation() {
    let vm = Vm::new().unwrap();
    let ctx = JitContext::for_entry(&vm, &buffers());
    assert_eq!(ctx.validate(), Ok(()));
    let mut bad = ctx;
    bad.magic ^= 1;
    assert_eq!(bad.validate(), Err(exec_err(ForthErrorKind::ExecutionStateCorrupted)));
    let mut null = ctx;
    null.memory_ptr = 0;
    assert_eq!(null.validate(), Err(exec_err(ForthErrorKind::ExecutionStateCorrupted)));
    let mut b = buffers();
    b.d_stack = 0;
    assert!(JitContext::for_entry(&vm, &b).validate().is_err());
}

#[test]
fn test_trap_codes() {
    let vm = Vm::new().unwrap();
    let mut ctx = JitContext::for_entry(&vm, &buffers());
    let table = [
        (1, ForthErrorKind::JitTrapOverflow),
        (2, ForthErrorKind::JitTrapUnderflow),
        (3, ForthErrorKind::JitTrapMagic),
        (4, ForthErrorKind::JitTrapAlignment),
        (6, ForthErrorKind::JitTrapDivZero),
        (8, ForthErrorKind::JitTrapContextNull),
        (10, ForthErrorKind::JitTrapJournalOverflow),
    ];
    for (code, kind) in table {
        ctx.trap_code = code;
        assert_eq!(vm.map_trap(&ctx), kind);
    }
    ctx.trap_code = 7;
    ctx.trap_addr = 99;
    assert_eq!(vm.map_trap(&ctx), ForthErrorKind::JitTrapMemory { addr: 99, limit: ctx.memory_limit });
    ctx.trap_code = 9;
    ctx.trap_target = 12;
    assert_eq!(vm.map_trap(&ctx), ForthErrorKind::JitTrapJumpOOB { target: 12 });
    ctx.trap_code = 42;
    assert_eq!(vm.map_trap(&ctx), ForthErrorKind::ExecutionStateCorrupted);
}

#[test]
fn test_finish_jit_call_commits() {
    let mut vm = Vm::new().unwrap();
    vm.d_push(5).unwrap();
    let mut ctx = JitContext::for_entry(&vm, &buffers());
    let (mut rs, ls) = vm.shadow_stacks();
    // The native code pushed one value, left one return-stack item and
    // walked two addresses.
    ctx.d_depth = 2;
    ctx.trap_ip = 9;
    ctx.r_depth = 1;
    let canary = rs[0];
    rs[0] = 77;
    rs[1] = canary;
    ctx.path_trace_len = 2;
    let mut path = vec![0u64; 128];
    path[0] = 3;
    path[1] = 4;
    ctx.loop_stack_depth = 0;
    assert_eq!(vm.finish_jit_call(&ctx, &pure_contract(), &rs, &ls, &path), Ok(()));
    assert_eq!(vm.d_depth, 2);
    assert_eq!(vm.ip, 9);
    assert_eq!(vm.r_stack, vec![77]);
    assert_eq!(vm.path_trace, vec![3, 4]);
}

#[test]
fn test_finish_jit_call_refusals() {
    let mut vm = Vm::new().unwrap();
    let base = JitContext::for_entry(&vm, &buffers());
    let (rs, ls) = vm.shadow_stacks();
    let path = vec![0u64; 128];
    let mut trapped = base;
    trapped.trap_code = 2;
    assert_eq!(
        vm.finish_jit_call(&trapped, &pure_contract(), &rs, &ls, &path),
        Err(exec_err(ForthErrorKind::JitTrapUnderflow))
    );
    let mut wrote = base;
    wrote.writes_occurred = 1;
    assert_eq!(vm.finish_jit_call(&wrote, &pure_contract(), &rs, &ls, &path), Err(exec_err(ForthErrorKind::Abort)));
    // The contract says one value is put back; none was.
    assert_eq!(
        vm.finish_jit_call(&base, &pure_contract(), &rs, &ls, &path),
        Err(exec_err(ForthErrorKind::JitTrapDifferentialFailure))
    );
    let mut deep = base;
    deep.d_depth = 5000;
    assert_eq!(
        vm.finish_jit_call(&deep, &pure_contract(), &rs, &ls, &path),
        Err(exec_err(ForthErrorKind::JitTrapDifferentialFailure))
    );
    // A damaged data stack canary is refused.
    let mut grown = base;
    grown.d_depth = 1;
    vm.d_stack[4096] ^= 0xFF;
    assert_eq!(
        vm.finish_jit_call(&grown, &pure_contract(), &rs, &ls, &path),
        Err(exec_err(ForthErrorKind::ExecutionStateCorrupted))
    );
    vm.d_stack[4096] ^= 0xFF;
    assert_eq!(vm.finish_jit_call(&grown, &pure_contract(), &rs, &ls, &path), Ok(()));
    let mut smashed = rs.clone();
    smashed[0] = 0;
    assert_eq!(
        vm.finish_jit_call(&base, &pure_contract(), &smashed, &ls, &path),
        Err(exec_err(ForthErrorKind::ExecutionStateCorrupted))
    );
    assert_eq!(vm.ip, 0);
    assert_eq!(vm.d_depth, 1);
}

#[test]
fn test_audit_finds_first_difference() {
    let sys = System::new(64).unwrap();
    let mut other = System::new(64).unwrap();
    let mut vm = Vm::new().unwrap();
    vm.d_push(5).unwrap();
    let base = vm.try_clone().unwrap();
    assert_eq!(vm.audit(&base, &sys, &other, true), None);
    other.memory.write_u8(9, 1).unwrap();
    assert_eq!(vm.audit(&base, &sys, &other, true), Some(Divergence::Memory(9)));
    assert_eq!(vm.audit(&base, &sys, &other, false), Some(Divergence::FloatStack));
    vm.r_stack.push(1);
    assert_eq!(vm.audit(&base, &sys, &other, true), Some(Divergence::ReturnStack));
    vm.d_pop().unwrap();
    vm.d_push(6).unwrap();
    assert_eq!(vm.audit(&base, &sys, &other, true), Some(Divergence::DataStack(0)));
    vm.d_push(1).unwrap();
    assert_eq!(vm.audit(&base, &sys, &other, true), Some(Divergence::Depth { jit: 2, base: 1 }));
    vm.ip = 3;
    assert_eq!(vm.audit(&base, &sys, &other, true), Some(Divergence::Ip { jit: 3, base: 0 }));
    let small = System::new(32).unwrap();
    let same = vm.try_clone().unwrap();
    assert_eq!(vm.audit(&same, &sys, &small, true), Some(Divergence::MemorySize));
}

#[test]
fn test_snapshot_restore() {
    let mut vm = Vm::new().unwrap();
    vm.d_push(1).unwrap();
    vm.d_push(7).unwrap();
    vm.r_push(2).unwrap();
    let snap = vm.snapshot();
    assert_eq!(snap.cells, vec![1, 7]);
    // A run that overwrites the cells and grows the stacks.
    vm.d_pop().unwrap();
    vm.d_pop().unwrap();
    vm.d_push(40).unwrap();
    vm.d_push(41).unwrap();
    vm.d_push(3).unwrap();
    vm.r_push(4).unwrap();
    vm.loop_stack.push(9);
    vm.ip = 50;
    vm.restore(&snap);
    assert_eq!(vm.d_depth, 2);
    assert_eq!(vm.r_stack, vec![2]);
    assert!(vm.loop_stack.is_empty());
    assert_eq!(vm.ip, 0);
    assert_eq!(vm.d_pop(), Ok(7));
    assert_eq!(vm.d_pop(), Ok(1));
    assert_eq!(vm.verify_canaries(), Ok(()));
}

#[test]
fn test_recover_from_trap_replays_journal() {
    let mut sys = System::new(4096).unwrap();
    let mut vm = Vm::new().unwrap();
    sys.memory.write_i64(16, 111).unwrap();
    let snap = vm.snapshot();
    // A native write of 222 over 111 at 16, journaled.
    sys.memory.write_i64(16, 222).unwrap();
    let journal = [16u64, 111u64];
    vm.d_push(7).unwrap();
    vm.recover_from_trap(&mut sys, &snap, &journal, 2);
    assert_eq!(sys.memory.read_i64(16), Ok(111));
    assert_eq!(vm.d_depth, 0);
    assert_eq!(sys.jit_poisoned, 1);
}

#[test]
fn test_journal_undoes_writes_in_reverse() {
    let mut sys = System::new(4096).unwrap();
    sys.memory.write_i64(0, 1).unwrap();
    sys.memory.write_i64(8, 2).unwrap();
    // Two writes to 0 and one to 8, each journaled with the value before it.
    let mut journal = Vec::new();
    for (addr, val) in [(0usize, 10i64), (8, 20), (0, 30)] {
        let before = sys.memory.read_i64(addr).unwrap();
        journal.push(addr as u64);
        journal.push(before as u64);
        sys.memory.write_i64(addr, val).unwrap();
    }
    assert_eq!(sys.memory.read_i64(0), Ok(30));
    let len = journal.len();
    sys.memory.replay_journal(&journal, len);
    assert_eq!(sys.memory.read_i64(0), Ok(1));
    assert_eq!(sys.memory.read_i64(8), Ok(2));
}

#[test]
fn test_memory_slice_writes_through() {
    let mut sys = System::new(64).unwrap();
    {
        let bytes = sys.memory.as_slice_mut();
        assert_eq!(bytes.len(), 64);
        bytes[8] = 0x2A;
    }
    assert_eq!(sys.memory.read_u8(8), Ok(0x2A));
    assert_eq!(sys.memory.read_i64(8), Ok(0x2A));
}

fn system_with_push(v: u64) -> System {
    let mut sys = System::new(4096).unwrap();
    sys.code.push(Op::Push, v);
    sys.code.push(Op::Stop, 0);
    sys
}

#[test]
fn test_settle_clean_run_counts_a_hit() {
    let mut sys = system_with_push(5);
    let mut vm = Vm::new().unwrap();
    let snap = vm.snapshot();
    vm.d_push(9).unwrap();
    let r = vm.settle_jit_run(&mut sys, &snap, JitOutcome::Clean, String::new(), &[], 0, None, 0);
    assert_eq!(r, Some(Ok(ExecutionStatus::Done)));
    assert_eq!(sys.jit_hits, 1);
    assert_eq!(sys.jit_poisoned, 0);
    assert_eq!(vm.d_depth, 1);
}

#[test]
fn test_settle_trap_rolls_back_and_steps() {
    let mut sys = system_with_push(5);
    let mut vm = Vm::new().unwrap();
    sys.memory.write_i64(16, 111).unwrap();
    let snap = vm.snapshot();
    sys.memory.write_i64(16, 222).unwrap();
    vm.d_push(9).unwrap();
    vm.d_push(8).unwrap();
    let journal = [16u64, 111u64];
    let r = vm.settle_jit_run(&mut sys, &snap, JitOutcome::Trapped(ForthErrorKind::JitTrapOverflow), String::new(), &journal, 2, None, 0);
    // Rolled back to the empty stack, then the interpreter ran PUSH 5.
    assert_eq!(r, Some(Ok(ExecutionStatus::Done)));
    assert_eq!(vm.d_depth, 1);
    assert_eq!(vm.d_pop(), Ok(5));
    assert_eq!(vm.ip, 1);
    assert_eq!(sys.memory.read_i64(16), Ok(111));
    assert_eq!(sys.jit_poisoned, 1);
    assert_eq!(sys.jit_hits, 0);
}

#[test]
fn test_settle_paranoid_trap_poisons_the_block() {
    let mut sys = system_with_push(5);
    sys.paranoid_mode = true;
    let mut vm = Vm::new().unwrap();
    let snap = vm.snapshot();
    vm.d_push(9).unwrap();
    let r = vm.settle_jit_run(
        &mut sys,
        &snap,
        JitOutcome::Diverged(Divergence::DataStack(0)),
        "Data stack slot 0 mismatch".to_string(),
        &[],
        0,
        None,
        7,
    );
    assert_eq!(r, Some(Ok(ExecutionStatus::Done)));
    assert_eq!(vm.d_pop(), Ok(5));
    assert_eq!(sys.jit_poisoned, 1);
}

#[test]
fn test_synchronize_last_entry_wins() {
    let mut sys = System::new(4096).unwrap();
    let first = vec![(Op::Push, 1), (Op::Push, 2), (Op::Add, 0)];
    let second = vec![(Op::Push, 1), (Op::Dup, 0)];
    for seq in [first, second] {
        let (contract, _) = validate_sequence_contract(&seq).unwrap();
        let ctx = PatternContext { word_id: 0, loop_depth: 0, original_ops: seq.clone(), ops: seq, contract: Some(contract) };
        sys.optimizer.pending_jit.push((0, ctx));
    }
    sys.synchronize_jit(JitTarget { x86_64: true, windows: false }, 0).unwrap();
    assert!(sys.optimizer.pending_jit.is_empty());
    let block = sys.jit.blocks.get(&0).unwrap();
    assert_eq!(block.original_ops_len, 2);
    assert_eq!(block.context.as_ref().unwrap().original_ops, vec![(Op::Push, 1), (Op::Dup, 0)]);
}

#[test]
fn test_check_entry() {
    assert_eq!(check_entry(0x1000), Ok(()));
    assert_eq!(check_entry(0), Err(exec_err(ForthErrorKind::ExecutionStateCorrupted)));
    assert_eq!(check_entry(0x1008), Err(exec_err(ForthErrorKind::ExecutionStateCorrupted)));
}
