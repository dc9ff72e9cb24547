use kaiforth::common::error::{ForthError, ForthErrorKind, ForthPhase};
use kaiforth::common::types::{AddressRange, MemoryAccess, Op, SemanticContract, TraceEvent};
use kaiforth::optimizer::analysis::{OptimizerState, PatternContext, PersistenceContainer, SNAPSHOT_VERSION};
use kaiforth::optimizer::contract::validate_sequence_contract;
use kaiforth::optimizer::segmentation::build_safe_segments;

fn no_mem() -> MemoryAccess {
    MemoryAccess { read_set: vec![], write_set: vec![], unknown_read: false, unknown_write: false, alias_barrier: false }
}

#[test]
fn test_op_byte_roundtrip() {
    for b in 0u8..=255 {
        if let Some(op) = Op::from_u8(b) {
            assert_eq!(op.to_u8(), b);
        }
    }
    assert_eq!(Op::from_u8(Op::Add.to_u8()), Some(Op::Add));
    assert_eq!(Op::from_u8(255), None);
}

#[test]
fn test_inline_contract_values() {
    let dup = Op::Dup.inline_contract().unwrap();
    assert_eq!((dup.pop_d, dup.push_d, dup.max_d), (1, 2, 1));
    assert!(dup.pure && !dup.side_effects);
    let store = Op::Store.inline_contract().unwrap();
    assert_eq!((store.pop_d, store.push_d), (2, 0));
    assert!(store.mem.unknown_write && store.mem.alias_barrier && store.side_effects && !store.pure);
    let to_r = Op::ToR.inline_contract().unwrap();
    assert_eq!((to_r.pop_d, to_r.push_r), (1, 1));
    assert_eq!(Op::Call.inline_contract(), None);
    assert_eq!(Op::Jump.inline_contract(), None);
}

#[test]
fn test_constant_sequence_folds() {
    let (c, folded) = validate_sequence_contract(&[(Op::Push, 10), (Op::Push, 20), (Op::Add, 0)]).unwrap();
    assert_eq!(
        c,
        SemanticContract { pop_d: 0, push_d: 1, max_d: 2, pop_r: 0, push_r: 0, max_r: 0, mem: no_mem(), pure: true, side_effects: false }
    );
    assert_eq!(folded, Some(vec![(Op::Push, 30)]));
}

#[test]
fn test_fetch_records_read_range() {
    let (c, folded) = validate_sequence_contract(&[(Op::Push, 8), (Op::Fetch, 0)]).unwrap();
    assert_eq!((c.pop_d, c.push_d, c.max_d), (0, 1, 1));
    assert_eq!(c.mem.read_set, vec![AddressRange { start: 8, end: 16 }]);
    assert!(c.mem.write_set.is_empty());
    assert!(c.mem.unknown_read && !c.mem.unknown_write);
    assert!(c.mem.alias_barrier);
    assert!(!c.pure);
    assert_eq!(folded, None);
}

#[test]
fn test_store_then_fetch_same_cell() {
    let seq = [(Op::Push, 5), (Op::Push, 16), (Op::Store, 0), (Op::Push, 16), (Op::Fetch, 0)];
    let (c, _) = validate_sequence_contract(&seq).unwrap();
    assert_eq!(c.mem.read_set, vec![AddressRange { start: 16, end: 24 }]);
    assert_eq!(c.mem.write_set, vec![AddressRange { start: 16, end: 24 }]);
    assert!(c.mem.has_alias_risk());
    assert!(c.side_effects);
}

#[test]
fn test_sequence_with_inputs_does_not_fold() {
    let (c, folded) = validate_sequence_contract(&[(Op::Add, 0)]).unwrap();
    assert_eq!((c.pop_d, c.push_d, c.max_d), (2, 1, 0));
    assert_eq!(folded, None);
    let (c2, folded2) = validate_sequence_contract(&[(Op::Push, 1), (Op::Drop, 0)]).unwrap();
    assert_eq!((c2.pop_d, c2.push_d, c2.max_d), (0, 0, 1));
    assert_eq!(folded2, Some(vec![]));
}

#[test]
fn test_unknown_instruction_has_no_contract() {
    assert!(validate_sequence_contract(&[(Op::Push, 1), (Op::Call, 3)]).is_none());
}

#[test]
fn test_segments_split_at_unanalyzable() {
    let segs = build_safe_segments(&[(Op::Push, 1), (Op::Push, 2), (Op::Add, 0), (Op::Call, 5), (Op::Push, 3)]);
    assert_eq!(segs.len(), 2);
    assert_eq!(segs[0].ops, vec![(Op::Push, 1), (Op::Push, 2), (Op::Add, 0)]);
    assert_eq!(segs[1].ops, vec![(Op::Push, 3)]);
    assert_eq!(segs[0].contract.push_d, 1);
}

#[test]
fn test_segments_split_when_stack_runs_dry() {
    let segs = build_safe_segments(&[(Op::Push, 1), (Op::Drop, 0), (Op::Drop, 0)]);
    assert_eq!(segs.len(), 2);
    assert_eq!(segs[0].ops, vec![(Op::Push, 1), (Op::Drop, 0)]);
    assert_eq!(segs[1].ops, vec![(Op::Drop, 0)]);
}

#[test]
fn test_empty_input_has_no_segments() {
    assert!(build_safe_segments(&[]).is_empty());
    assert!(build_safe_segments(&[(Op::Call, 1)]).is_empty());
}

#[test]
fn test_ranges_overlap() {
    let a = AddressRange { start: 0, end: 8 };
    let b = AddressRange { start: 4, end: 12 };
    let c = AddressRange { start: 8, end: 16 };
    assert!(a.overlaps(&b) && b.overlaps(&a));
    assert!(!a.overlaps(&c) && !c.overlaps(&a));
}

#[test]
fn test_canonicalize_sorts_by_start() {
    let mut m = MemoryAccess {
        read_set: vec![AddressRange { start: 16, end: 24 }, AddressRange { start: 0, end: 8 }],
        write_set: vec![AddressRange { start: 40, end: 48 }, AddressRange { start: 8, end: 16 }],
        unknown_read: false,
        unknown_write: false,
        alias_barrier: true,
    };
    m.canonicalize();
    assert_eq!(m.read_set, vec![AddressRange { start: 0, end: 8 }, AddressRange { start: 16, end: 24 }]);
    assert_eq!(m.write_set, vec![AddressRange { start: 8, end: 16 }, AddressRange { start: 40, end: 48 }]);
    assert!(m.alias_barrier);
}

#[test]
fn test_alias_risk() {
    let mut m = no_mem();
    assert!(!m.has_alias_risk());
    m.read_set.push(AddressRange { start: 0, end: 8 });
    m.write_set.push(AddressRange { start: 8, end: 16 });
    assert!(!m.has_alias_risk());
    m.write_set.push(AddressRange { start: 4, end: 12 });
    assert!(m.has_alias_risk());
    let mut u = no_mem();
    u.unknown_write = true;
    assert!(u.has_alias_risk());
}

#[test]
fn test_optimizer_threshold_schedule() {
    let mut o = OptimizerState::new();
    assert_eq!(o.next_opt_threshold, 100);
    for _ in 0..99 {
        assert!(!o.should_run_optimizer());
    }
    assert!(o.should_run_optimizer());
    assert_eq!(o.eval_count, 100);
    assert_eq!(o.next_opt_threshold, 150);
    o.next_opt_threshold = 400;
    o.eval_count = 399;
    assert!(o.should_run_optimizer());
    assert_eq!(o.next_opt_threshold, 600);
    o.freeze();
    let before = o.eval_count;
    assert!(!o.should_run_optimizer());
    assert_eq!(o.eval_count, before);
}

#[test]
fn test_observe_learns_hot_block() {
    let mut o = OptimizerState::new();
    o.score_threshold = 1;
    let mut trace = vec![
        TraceEvent::Op(0, Op::Push, 10),
        TraceEvent::Op(1, Op::Push, 20),
        TraceEvent::Op(2, Op::Add, 0),
    ];
    o.observe_runtime_traces(&mut trace);
    assert!(trace.is_empty());
    assert_eq!(o.decay_counter, 3);
    assert_eq!(o.pending_jit.len(), 1);
    let (ip, ctx) = &o.pending_jit[0];
    assert_eq!(*ip, 0);
    assert_eq!(ctx.word_id, usize::MAX);
    assert_eq!(ctx.loop_depth, 0);
    assert_eq!(ctx.ops, vec![(Op::Push, 30)]);
    assert_eq!(ctx.original_ops.len(), 3);
    assert_eq!(o.super_instructions.len(), 1);
    assert_eq!(o.context_patterns.len(), 1);
    assert_eq!(o.context_patterns[0].1.score, 1);
}

#[test]
fn test_learned_pattern_starts_at_its_own_address() {
    let mut o = OptimizerState::new();
    o.score_threshold = 1;
    let mut trace = vec![
        TraceEvent::Op(10, Op::Push, 1),
        TraceEvent::Op(11, Op::Push, 2),
        TraceEvent::Op(12, Op::Add, 0),
        TraceEvent::Op(13, Op::Call, 40),
        TraceEvent::Op(20, Op::Push, 3),
        TraceEvent::Op(21, Op::Push, 4),
        TraceEvent::Op(22, Op::Add, 0),
    ];
    o.observe_runtime_traces(&mut trace);
    assert_eq!(o.pending_jit.len(), 2);
    assert_eq!(o.pending_jit[0].0, 10);
    assert_eq!(o.pending_jit[0].1.ops, vec![(Op::Push, 3)]);
    // The call between the two runs is not part of any segment: the second
    // pattern is queued at the address of its own first instruction.
    assert_eq!(o.pending_jit[1].0, 20);
    assert_eq!(o.pending_jit[1].1.ops, vec![(Op::Push, 7)]);
}

#[test]
fn test_observe_needs_two_events() {
    let mut o = OptimizerState::new();
    o.score_threshold = 1;
    let mut trace = vec![TraceEvent::Op(0, Op::Push, 10)];
    o.observe_runtime_traces(&mut trace);
    assert_eq!(trace.len(), 1);
    assert_eq!(o.decay_counter, 0);
    assert!(o.context_patterns.is_empty());
}

#[test]
fn test_observe_counts_calls() {
    let mut o = OptimizerState::new();
    let mut trace = vec![
        TraceEvent::EnterWord(7),
        TraceEvent::Op(3, Op::Push, 1),
        TraceEvent::EnterWord(9),
        TraceEvent::ExitWord,
        TraceEvent::ExitWord,
    ];
    o.observe_runtime_traces(&mut trace);
    assert_eq!(o.call_frequencies.get(&7), Some(&1));
    assert_eq!(o.call_frequencies.get(&9), Some(&1));
    assert!(o.dependencies.get(&7).unwrap().contains(&9));
    // Below the score threshold nothing is queued.
    assert!(o.pending_jit.is_empty());
}

#[test]
fn test_penalize_pattern() {
    let mut o = OptimizerState::new();
    o.score_threshold = 1;
    let mut trace = vec![TraceEvent::Op(0, Op::Push, 1), TraceEvent::Op(1, Op::Dup, 0)];
    o.observe_runtime_traces(&mut trace);
    let ctx: PatternContext = o.context_patterns[0].0.clone();
    o.penalize_pattern(&ctx);
    assert_eq!(o.context_patterns[0].1.failures, 1);
    assert_eq!(o.context_patterns[0].1.score, 1 - 50);
}

#[test]
fn test_snapshot_roundtrip() {
    let mut o = OptimizerState::new();
    o.score_threshold = 7;
    let c = PersistenceContainer::wrap(o, 1);
    assert_eq!(&c.magic, b"KAIFORTH");
    assert_eq!(c.version, SNAPSHOT_VERSION);
    assert_eq!(c.version, 6);
    assert_eq!(c.arch_id, 1);
    let back = c.unwrap_state().unwrap();
    assert_eq!(back.score_threshold, 7);
}

#[test]
fn test_snapshot_rejects_wrong_version_or_magic() {
    let mut c = PersistenceContainer::wrap(OptimizerState::new(), 0);
    c.version = SNAPSHOT_VERSION + 1;
    assert_eq!(c.unwrap_state().err(), Some(ForthError::new(ForthErrorKind::Abort, ForthPhase::Optimization)));
    let mut c = PersistenceContainer::wrap(OptimizerState::new(), 0);
    c.magic[0] = b'X';
    assert_eq!(c.unwrap_state().err(), Some(ForthError::new(ForthErrorKind::Abort, ForthPhase::Optimization)));
}

#[test]
fn test_over_and_stop_contracts() {
    let (c, folded) = validate_sequence_contract(&[(Op::Push, 1), (Op::Push, 2), (Op::Over, 0)]).unwrap();
    assert_eq!((c.pop_d, c.push_d, c.max_d), (0, 3, 3));
    // Three pushes are no shorter than the sequence: nothing to fold.
    assert_eq!(folded, None);
    let (s, folded_stop) = validate_sequence_contract(&[(Op::Push, 1), (Op::Stop, 0)]).unwrap();
    assert!(!s.pure && s.side_effects);
    assert_eq!(folded_stop, None);
    let r_fetch = Op::RFetch.inline_contract().unwrap();
    assert_eq!((r_fetch.pop_r, r_fetch.push_d), (0, 1));
}

#[test]
fn test_decay_halves_scores() {
    let mut o = OptimizerState::new();
    o.score_threshold = 1000;
    let mut trace = vec![TraceEvent::Op(0, Op::Push, 1), TraceEvent::Op(1, Op::Dup, 0)];
    o.observe_runtime_traces(&mut trace);
    o.context_patterns[0].1.score = 9;
    o.call_frequencies.insert(3, 20);
    o.call_frequencies.insert(4, 11);
    o.apply_decay();
    assert_eq!(o.context_patterns[0].1.score, 4);
    assert_eq!(o.call_frequencies.get(&3), Some(&10));
    assert_eq!(o.call_frequencies.get(&4), None);
    assert_eq!(o.decay_counter, 0);
    o.context_patterns[0].1.score = 1;
    o.apply_decay();
    assert!(o.context_patterns.is_empty());
}

#[test]
fn test_observe_decays_past_the_limit() {
    let mut o = OptimizerState::new();
    o.score_threshold = 1000;
    let mut trace = vec![TraceEvent::Op(0, Op::Push, 1), TraceEvent::Op(1, Op::Dup, 0)];
    o.observe_runtime_traces(&mut trace);
    assert_eq!(o.decay_counter, 2);
    o.context_patterns[0].1.score = 9;
    o.call_frequencies.insert(3, 20);
    o.call_frequencies.insert(4, 11);
    o.decay_counter = 199_999;
    let mut trace = vec![TraceEvent::Op(5, Op::Noop, 0), TraceEvent::Op(6, Op::Noop, 0)];
    o.observe_runtime_traces(&mut trace);
    // 200001 events: the scores (9 and the new pattern's 1) are halved,
    // the pattern left at 0 is forgotten, and the count starts again.
    assert_eq!(o.decay_counter, 0);
    assert_eq!(o.context_patterns.len(), 1);
    assert_eq!(o.context_patterns[0].1.score, 4);
    assert_eq!(o.call_frequencies.get(&3), Some(&10));
    assert_eq!(o.call_frequencies.get(&4), None);
}

#[test]
fn test_observe_at_the_limit_does_not_decay() {
    let mut o = OptimizerState::new();
    o.decay_counter = 199_998;
    let mut trace = vec![TraceEvent::Op(0, Op::Push, 1), TraceEvent::Op(1, Op::Dup, 0)];
    o.observe_runtime_traces(&mut trace);
    assert_eq!(o.decay_counter, 200_000);
    assert_eq!(o.context_patterns[0].1.score, 1);
}

#[test]
fn test_patterns_with_many_failures_are_ignored() {
    let mut o = OptimizerState::new();
    o.score_threshold = 1;
    let mut trace = vec![TraceEvent::Op(0, Op::Push, 1), TraceEvent::Op(1, Op::Dup, 0)];
    o.observe_runtime_traces(&mut trace);
    o.pending_jit.clear();
    o.context_patterns[0].1.failures = 4;
    let before = o.context_patterns[0].1.score;
    let mut again = vec![TraceEvent::Op(0, Op::Push, 1), TraceEvent::Op(1, Op::Dup, 0)];
    o.observe_runtime_traces(&mut again);
    assert_eq!(o.context_patterns[0].1.score, before);
    assert!(o.pending_jit.is_empty());
}

#[test]
fn test_repeated_sightings_keep_super_instructions_unique() {
    let mut o = OptimizerState::new();
    o.score_threshold = 1;
    for _ in 0..3 {
        let mut trace = vec![TraceEvent::Op(0, Op::Push, 1), TraceEvent::Op(1, Op::Dup, 0)];
        o.observe_runtime_traces(&mut trace);
    }
    assert_eq!(o.super_instructions.len(), 1);
    assert_eq!(o.pending_jit.len(), 3);
    for _ in 0..200 {
        let mut trace = vec![TraceEvent::Op(0, Op::Push, 1), TraceEvent::Op(1, Op::Dup, 0)];
        o.observe_runtime_traces(&mut trace);
    }
    assert_eq!(o.pending_jit.len(), 128);
    assert_eq!(o.super_instructions.len(), 1);
}
