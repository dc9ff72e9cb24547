use std::collections::{HashMap, HashSet};
use crate::common::types::{Op, SemanticContract, ContractView, AddressRange, TraceEvent};
use crate::common::error::{ForthResult, ForthError, ForthErrorKind, ForthPhase};
use crate::optimizer::contract::{
    validate_sequence_contract, analysis, folded_form, is_contract_of, contract_view_of,
    lemma_contract_unique,
};
use crate::optimizer::segmentation::{build_safe_segments, safe_segments, safe_starts, segments_fit};
use vstd::prelude::*;

verus! {

/// A learned instruction sequence in the context it ran in.
#[derive(Clone, Debug, PartialEq, Eq, Hash)]
pub struct PatternContext {
    pub word_id: usize,
    pub loop_depth: usize,
    pub original_ops: Vec<(Op, u64)>,
    pub ops: Vec<(Op, u64)>,
    pub contract: Option<SemanticContract>,
}

/// The mathematical value of a `PatternContext`.
pub struct PatternView {
    pub word_id: usize,
    pub loop_depth: usize,
    pub original_ops: Seq<(Op, u64)>,
    pub ops: Seq<(Op, u64)>,
    pub contract: Option<ContractView>,
}

pub open spec fn contract_opt_view(c: Option<SemanticContract>) -> Option<ContractView> {
    match c {
        Some(c) => Some(c@),
        None => None,
    }
}

impl View for PatternContext {
    type V = PatternView;

    open spec fn view(&self) -> PatternView {
        PatternView {
            word_id: self.word_id,
            loop_depth: self.loop_depth,
            original_ops: self.original_ops@,
            ops: self.ops@,
            contract: contract_opt_view(self.contract),
        }
    }
}

/// How a learned pattern has fared.
#[derive(Clone, Copy, Debug, PartialEq, Eq, Structural)]
pub struct PatternStats {
    pub successes: u64,
    pub failures: u64,
    pub score: i64,
    pub instructions_saved: u64,
    pub jit_cycles: u64,
    pub fallback_cycles: u64,
    pub jit_executions: u64,
    pub fallback_executions: u64,
}

/// The bytes a patch replaced in the code buffer.
#[derive(Clone, Debug)]
pub struct CodePatch {
    pub offset: usize,
    pub original_ops: Vec<u8>,
    pub original_data: Vec<u64>,
}

/// The learned state of the adaptive optimizer.
///
/// `context_patterns` maps each pattern to its statistics; it holds each
/// pattern at most once and keeps the order in which they were first seen.
#[derive(Clone)]
pub struct OptimizerState {
    pub super_instructions: Vec<PatternContext>,
    pub pending_jit: Vec<(usize, PatternContext)>,
    pub context_patterns: Vec<(PatternContext, PatternStats)>,
    pub active_patches: HashMap<usize, CodePatch>,
    pub call_frequencies: HashMap<usize, u64>,
    pub dependencies: HashMap<usize, HashSet<usize>>,
    pub decay_counter: u64,
    pub eval_count: u64,
    pub next_opt_threshold: u64,
    pub score_threshold: i64,
    pub is_frozen: bool,
}

pub const MAX_PENDING_JIT: usize = 128;
pub const MAX_PATTERNS: usize = 1024;

// ---------------------------------------------------------------------------
// Equality of patterns.

fn ops_equal(a: &Vec<(Op, u64)>, b: &Vec<(Op, u64)>) -> (r: bool)
    ensures
        r == (a@ == b@),
{
    if a.len() != b.len() {
        return false;
    }
    let mut i: usize = 0;
    while i < a.len()
        invariant
            a.len() == b.len(),
            i <= a.len(),
            forall|k: int| 0 <= k < i ==> a@[k] == b@[k],
        decreases a.len() - i,
    {
        if a[i].0 != b[i].0 || a[i].1 != b[i].1 {
            return false;
        }
        i = i + 1;
    }
    assert(a@ =~= b@);
    true
}

fn ranges_equal(a: &Vec<AddressRange>, b: &Vec<AddressRange>) -> (r: bool)
    ensures
        r == (a@ == b@),
{
    if a.len() != b.len() {
        return false;
    }
    let mut i: usize = 0;
    while i < a.len()
        invariant
            a.len() == b.len(),
            i <= a.len(),
            forall|k: int| 0 <= k < i ==> a@[k] == b@[k],
        decreases a.len() - i,
    {
        if a[i].start != b[i].start || a[i].end != b[i].end {
            return false;
        }
        i = i + 1;
    }
    assert(a@ =~= b@);
    true
}

fn contract_equal(a: &SemanticContract, b: &SemanticContract) -> (r: bool)
    ensures
        r == (a@ == b@),
{
    a.pop_d == b.pop_d && a.push_d == b.push_d && a.max_d == b.max_d && a.pop_r == b.pop_r
        && a.push_r == b.push_r && a.max_r == b.max_r && a.pure == b.pure && a.side_effects
        == b.side_effects && a.mem.unknown_read == b.mem.unknown_read && a.mem.unknown_write
        == b.mem.unknown_write && a.mem.alias_barrier == b.mem.alias_barrier && ranges_equal(
        &a.mem.read_set,
        &b.mem.read_set,
    ) && ranges_equal(&a.mem.write_set, &b.mem.write_set)
}

/// Copies an instruction sequence.
pub fn copy_ops(v: &[(Op, u64)]) -> (r: Vec<(Op, u64)>)
    ensures
        r@ == v@,
{
    let mut r: Vec<(Op, u64)> = Vec::new();
    let mut i: usize = 0;
    while i < v.len()
        invariant
            i <= v.len(),
            r@ == v@.take(i as int),
        decreases v.len() - i,
    {
        r.push(v[i]);
        assert(v@.take(i + 1) =~= v@.take(i as int).push(v@[i as int]));
        i = i + 1;
    }
    assert(v@.take(i as int) =~= v@);
    r
}

impl PatternContext {
    /// Whether two patterns are the same pattern.
    pub fn same_as(&self, other: &PatternContext) -> (r: bool)
        ensures
            r == (self@ == other@),
    {
        if self.word_id != other.word_id || self.loop_depth != other.loop_depth {
            return false;
        }
        if !ops_equal(&self.original_ops, &other.original_ops) || !ops_equal(&self.ops, &other.ops) {
            return false;
        }
        match (&self.contract, &other.contract) {
            (Some(a), Some(b)) => contract_equal(a, b),
            (None, None) => true,
            _ => false,
        }
    }

    /// An independent copy of this pattern.
    pub fn duplicate(&self) -> (r: PatternContext)
        ensures
            r@ == self@,
    {
        PatternContext {
            word_id: self.word_id,
            loop_depth: self.loop_depth,
            original_ops: copy_ops(self.original_ops.as_slice()),
            ops: copy_ops(self.ops.as_slice()),
            contract: match &self.contract {
                Some(c) => Some(c.duplicate()),
                None => None,
            },
        }
    }
}

impl SemanticContract {
    /// An independent copy of this contract.
    pub fn duplicate(&self) -> (r: SemanticContract)
        ensures
            r@ == self@,
    {
        SemanticContract {
            pop_d: self.pop_d,
            push_d: self.push_d,
            max_d: self.max_d,
            pop_r: self.pop_r,
            push_r: self.push_r,
            max_r: self.max_r,
            mem: crate::common::types::MemoryAccess {
                read_set: copy_ranges(&self.mem.read_set),
                write_set: copy_ranges(&self.mem.write_set),
                unknown_read: self.mem.unknown_read,
                unknown_write: self.mem.unknown_write,
                alias_barrier: self.mem.alias_barrier,
            },
            pure: self.pure,
            side_effects: self.side_effects,
        }
    }
}

fn copy_ranges(v: &Vec<AddressRange>) -> (r: Vec<AddressRange>)
    ensures
        r@ == v@,
{
    let mut r: Vec<AddressRange> = Vec::new();
    let mut i: usize = 0;
    while i < v.len()
        invariant
            i <= v.len(),
            r@ == v@.take(i as int),
        decreases v.len() - i,
    {
        r.push(v[i]);
        assert(v@.take(i + 1) =~= v@.take(i as int).push(v@[i as int]));
        i = i + 1;
    }
    assert(v@.take(i as int) =~= v@);
    r
}

// ---------------------------------------------------------------------------
// The learning model.

/// The part of the optimizer state that learning updates.
pub struct LearnView {
    pub patterns: Seq<(PatternView, PatternStats)>,
    pub supers: Seq<PatternView>,
    pub pending: Seq<(usize, PatternView)>,
}

pub open spec fn patterns_view(v: Seq<(PatternContext, PatternStats)>) -> Seq<(PatternView, PatternStats)> {
    v.map_values(|p: (PatternContext, PatternStats)| (p.0@, p.1))
}

pub open spec fn supers_view(v: Seq<PatternContext>) -> Seq<PatternView> {
    v.map_values(|p: PatternContext| p@)
}

pub open spec fn pending_view(v: Seq<(usize, PatternContext)>) -> Seq<(usize, PatternView)> {
    v.map_values(|p: (usize, PatternContext)| (p.0, p.1@))
}

impl OptimizerState {
    pub open spec fn learn_view(&self) -> LearnView {
        LearnView {
            patterns: patterns_view(self.context_patterns@),
            supers: supers_view(self.super_instructions@),
            pending: pending_view(self.pending_jit@),
        }
    }
}

/// Where pattern `k` is recorded (the last place, if several); -1 if nowhere.
pub open spec fn find_key(ps: Seq<(PatternView, PatternStats)>, k: PatternView) -> int
    decreases ps.len(),
{
    if ps.len() == 0 {
        -1
    } else if ps.last().0 == k {
        ps.len() - 1
    } else {
        find_key(ps.drop_last(), k)
    }
}

pub proof fn lemma_find_key(ps: Seq<(PatternView, PatternStats)>, k: PatternView)
    ensures
        -1 <= find_key(ps, k) < ps.len(),
        find_key(ps, k) >= 0 ==> ps[find_key(ps, k)].0 == k,
        find_key(ps, k) == -1 ==> forall|i: int| 0 <= i < ps.len() ==> ps[i].0 != k,
    decreases ps.len(),
{
    if ps.len() > 0 && ps.last().0 != k {
        lemma_find_key(ps.drop_last(), k);
        assert forall|i: int| 0 <= i < ps.len() && find_key(ps, k) == -1 implies ps[i].0 != k by {
            if i < ps.len() - 1 {
                assert(ps[i] == ps.drop_last()[i]);
            }
        }
        if find_key(ps, k) >= 0 {
            assert(ps[find_key(ps, k)] == ps.drop_last()[find_key(ps, k)]);
        }
    }
}

pub open spec fn zero_stats() -> PatternStats {
    PatternStats {
        successes: 0,
        failures: 0,
        score: 0,
        instructions_saved: 0,
        jit_cycles: 0,
        fallback_cycles: 0,
        jit_executions: 0,
        fallback_executions: 0,
    }
}

/// Records one more sighting of pattern `ctx` that starts at `start_ip`:
/// a pattern seen for the first time is recorded with zero statistics; a
/// pattern with more than three failures is otherwise left alone; else its
/// score grows by `mult`, and once the score reaches the threshold the
/// pattern becomes a super-instruction and is queued for compilation (while
/// the queue holds fewer than its limit). `None` when the score would
/// overflow.
pub open spec fn absorb_one(m: LearnView, ctx: PatternView, start_ip: usize, mult: i64, threshold: i64) -> Option<LearnView> {
    let idx = find_key(m.patterns, ctx);
    let ps = if idx < 0 {
        m.patterns.push((ctx, zero_stats()))
    } else {
        m.patterns
    };
    let i = if idx < 0 {
        m.patterns.len() as int
    } else {
        idx
    };
    let st = ps[i].1;
    if st.failures > 3 {
        Some(LearnView { patterns: ps, ..m })
    } else if st.score + mult > i64::MAX || st.score + mult < i64::MIN {
        None
    } else {
        let score = (st.score + mult) as i64;
        let ps2 = ps.update(i, (ctx, PatternStats { score, ..st }));
        if score >= threshold {
            Some(
                LearnView {
                    patterns: ps2,
                    supers: if m.supers.contains(ctx) {
                        m.supers
                    } else {
                        m.supers.push(ctx)
                    },
                    pending: if m.pending.len() < MAX_PENDING_JIT {
                        m.pending.push((start_ip, ctx))
                    } else {
                        m.pending
                    },
                },
            )
        } else {
            Some(LearnView { patterns: ps2, ..m })
        }
    }
}

/// The pattern a segment of an analyzable run gives.
pub open spec fn pattern_of(seg: Seq<(Op, u64)>, word_id: usize, loop_depth: usize) -> PatternView {
    let r = analysis(seg)->0;
    PatternView {
        word_id,
        loop_depth,
        original_ops: seg,
        ops: match folded_form(seg, r.0, r.1) {
            Some(f) => f,
            None => seg,
        },
        contract: Some(contract_view_of(seg)),
    }
}

/// Progress through the segments of one chunk of the trace.
pub struct AbsorbState {
    pub learn: Option<LearnView>,
    pub stopped: bool,
}

/// Records the segment `seg`, which starts at index `start` of the chunk,
/// at the bytecode address `ips[start]`; learning stops at the first
/// segment whose start has no recorded address.
pub open spec fn absorb_step(
    a: AbsorbState,
    seg: Seq<(Op, u64)>,
    start: int,
    ips: Seq<usize>,
    word_id: usize,
    loop_depth: usize,
    mult: i64,
    threshold: i64,
) -> AbsorbState {
    if a.stopped || a.learn is None {
        a
    } else if start < 0 || start >= ips.len() {
        AbsorbState { stopped: true, ..a }
    } else {
        AbsorbState {
            learn: absorb_one(a.learn->0, pattern_of(seg, word_id, loop_depth), ips[start], mult, threshold),
            stopped: false,
        }
    }
}

pub open spec fn absorb_all(
    m: LearnView,
    segs: Seq<Seq<(Op, u64)>>,
    starts: Seq<int>,
    ips: Seq<usize>,
    word_id: usize,
    loop_depth: usize,
    mult: i64,
    threshold: i64,
) -> AbsorbState
    decreases segs.len(),
{
    if segs.len() == 0 || starts.len() == 0 {
        AbsorbState { learn: Some(m), stopped: false }
    } else {
        absorb_step(
            absorb_all(m, segs.drop_last(), starts.drop_last(), ips, word_id, loop_depth, mult, threshold),
            segs.last(), starts.last(), ips, word_id, loop_depth, mult, threshold)
    }
}

/// What learning from one chunk of the trace does; `None` when the
/// computation would overflow.
pub open spec fn learn_chunk(
    m: LearnView,
    flat: Seq<(Op, u64)>,
    ips: Seq<usize>,
    word_id: usize,
    loop_depth: usize,
    threshold: i64,
) -> Option<LearnView> {
    if flat.len() == 0 {
        Some(m)
    } else if !segments_fit(flat) || flat.len() * 16 > isize::MAX || ips.len() * 8 > isize::MAX
        || loop_depth == usize::MAX {
        None
    } else {
        absorb_all(m, safe_segments(flat), safe_starts(flat), ips, word_id, loop_depth, (1 + loop_depth) as i64, threshold).learn
    }
}

proof fn lemma_absorb_extends(
    m: LearnView,
    segs: Seq<Seq<(Op, u64)>>,
    starts: Seq<int>,
    ips: Seq<usize>,
    word_id: usize,
    loop_depth: usize,
    mult: i64,
    threshold: i64,
    j: int,
)
    requires
        0 <= j <= segs.len(),
        segs.len() == starts.len(),
    ensures
        absorb_all(m, segs.take(j), starts.take(j), ips, word_id, loop_depth, mult, threshold).learn is None
            ==> absorb_all(m, segs, starts, ips, word_id, loop_depth, mult, threshold).learn is None,
        absorb_all(m, segs.take(j), starts.take(j), ips, word_id, loop_depth, mult, threshold).stopped
            ==> absorb_all(m, segs, starts, ips, word_id, loop_depth, mult, threshold)
                == absorb_all(m, segs.take(j), starts.take(j), ips, word_id, loop_depth, mult, threshold),
    decreases segs.len(),
{
    if j == segs.len() {
        assert(segs.take(j) =~= segs);
        assert(starts.take(j) =~= starts);
    } else {
        assert(segs.drop_last().take(j) =~= segs.take(j));
        assert(starts.drop_last().take(j) =~= starts.take(j));
        lemma_absorb_extends(m, segs.drop_last(), starts.drop_last(), ips, word_id, loop_depth, mult, threshold, j);
    }
}

/// Learning took `m0` to `m1` without letting the compile queue grow past
/// its limit, without recording a super-instruction twice, and only adding
/// super-instructions after those already recorded.
pub open spec fn queue_grows(m0: LearnView, m1: LearnView) -> bool {
    &&& (m0.pending.len() <= MAX_PENDING_JIT ==> m1.pending.len() <= MAX_PENDING_JIT)
    &&& (m0.supers.no_duplicates() ==> m1.supers.no_duplicates())
    &&& m0.supers.len() <= m1.supers.len()
    &&& m1.supers.take(m0.supers.len() as int) == m0.supers
}

proof fn lemma_queue_grows_trans(m0: LearnView, m1: LearnView, m2: LearnView)
    requires
        queue_grows(m0, m1),
        queue_grows(m1, m2),
    ensures
        queue_grows(m0, m2),
{
    assert(m2.supers.take(m0.supers.len() as int) =~= m2.supers.take(m1.supers.len() as int).take(m0.supers.len() as int));
}

proof fn lemma_queue_grows_refl(m: LearnView)
    ensures
        queue_grows(m, m),
{
    assert(m.supers.take(m.supers.len() as int) =~= m.supers);
}

proof fn lemma_absorb_one_grows(m: LearnView, ctx: PatternView, start_ip: usize, mult: i64, threshold: i64)
    requires
        absorb_one(m, ctx, start_ip, mult, threshold) is Some,
    ensures
        queue_grows(m, absorb_one(m, ctx, start_ip, mult, threshold)->0),
{
    lemma_queue_grows_refl(m);
    if !m.supers.contains(ctx) {
        let s2 = m.supers.push(ctx);
        assert(s2.take(m.supers.len() as int) =~= m.supers);
        if m.supers.no_duplicates() {
            assert forall|i: int, j: int| 0 <= i < s2.len() && 0 <= j < s2.len() && i != j implies s2[i] != s2[j] by {
                if i == m.supers.len() as int {
                    assert(m.supers[j] == s2[j]);
                } else if j == m.supers.len() as int {
                    assert(m.supers[i] == s2[i]);
                }
            }
        }
    }
}

proof fn lemma_absorb_all_grows(
    m: LearnView,
    segs: Seq<Seq<(Op, u64)>>,
    starts: Seq<int>,
    ips: Seq<usize>,
    word_id: usize,
    loop_depth: usize,
    mult: i64,
    threshold: i64,
)
    requires
        absorb_all(m, segs, starts, ips, word_id, loop_depth, mult, threshold).learn is Some,
    ensures
        queue_grows(m, absorb_all(m, segs, starts, ips, word_id, loop_depth, mult, threshold).learn->0),
    decreases segs.len(),
{
    if segs.len() == 0 || starts.len() == 0 {
        lemma_queue_grows_refl(m);
    } else {
        let a = absorb_all(m, segs.drop_last(), starts.drop_last(), ips, word_id, loop_depth, mult, threshold);
        lemma_absorb_all_grows(m, segs.drop_last(), starts.drop_last(), ips, word_id, loop_depth, mult, threshold);
        if !(a.stopped || a.learn is None || starts.last() < 0 || starts.last() >= ips.len()) {
            let ctx = pattern_of(segs.last(), word_id, loop_depth);
            lemma_absorb_one_grows(a.learn->0, ctx, ips[starts.last()], mult, threshold);
            lemma_queue_grows_trans(m, a.learn->0, absorb_one(a.learn->0, ctx, ips[starts.last()], mult, threshold)->0);
        }
    }
}

proof fn lemma_learn_chunk_grows(m: LearnView, flat: Seq<(Op, u64)>, ips: Seq<usize>, word_id: usize, loop_depth: usize, threshold: i64)
    requires
        learn_chunk(m, flat, ips, word_id, loop_depth, threshold) is Some,
    ensures
        queue_grows(m, learn_chunk(m, flat, ips, word_id, loop_depth, threshold)->0),
{
    if flat.len() == 0 {
        lemma_queue_grows_refl(m);
    } else {
        lemma_absorb_all_grows(m, safe_segments(flat), safe_starts(flat), ips, word_id, loop_depth, (1 + loop_depth) as i64, threshold);
    }
}

/// The failure and score counters of pattern `ctx` (if it is recorded)
/// have room for one more penalty.
pub open spec fn can_penalize(o: OptimizerState, ctx: PatternView) -> bool {
    find_key(patterns_view(o.context_patterns@), ctx) >= 0 ==> {
        let st = o.context_patterns@[find_key(patterns_view(o.context_patterns@), ctx)].1;
        st.failures < u64::MAX && st.score >= i64::MIN + 50
    }
}

/// `o1` is `o0` with pattern `ctx` (if it is recorded) charged one more
/// failure and 50 off its score; nothing else changes.
pub open spec fn penalized(o0: OptimizerState, o1: OptimizerState, ctx: PatternView) -> bool {
    &&& ({
        let i = find_key(patterns_view(o0.context_patterns@), ctx);
        let st = o0.context_patterns@[i].1;
        if i >= 0 {
            &&& o1.context_patterns@.len() == o0.context_patterns@.len()
            &&& forall|k: int| 0 <= k < o0.context_patterns@.len() && k != i
                ==> #[trigger] o1.context_patterns@[k] == o0.context_patterns@[k]
            &&& o1.context_patterns@[i].0@ == ctx
            &&& o1.context_patterns@[i].1 == (PatternStats {
                failures: (st.failures + 1) as u64,
                score: (st.score - 50) as i64,
                ..st
            })
        } else {
            o1.context_patterns@ == o0.context_patterns@
        }
    })
    &&& o1.super_instructions@ == o0.super_instructions@
    &&& o1.pending_jit@ == o0.pending_jit@
    &&& o1.active_patches@ == o0.active_patches@
    &&& o1.call_frequencies@ == o0.call_frequencies@
    &&& o1.dependencies@ == o0.dependencies@
    &&& o1.decay_counter == o0.decay_counter
    &&& o1.eval_count == o0.eval_count
    &&& o1.next_opt_threshold == o0.next_opt_threshold
    &&& o1.score_threshold == o0.score_threshold
    &&& o1.is_frozen == o0.is_frozen
}

impl OptimizerState {
    /// A fresh optimizer: nothing learned, thresholds at their defaults.
    pub fn new() -> (r: Self)
        ensures
            r.super_instructions@.len() == 0,
            r.pending_jit@.len() == 0,
            r.context_patterns@.len() == 0,
            r.active_patches@ == Map::<usize, CodePatch>::empty(),
            r.call_frequencies@ == Map::<usize, u64>::empty(),
            r.dependencies@ == Map::<usize, HashSet<usize>>::empty(),
            r.decay_counter == 0,
            r.eval_count == 0,
            r.next_opt_threshold == 100,
            r.score_threshold == 100,
            !r.is_frozen,
    {
        OptimizerState {
            super_instructions: Vec::new(),
            pending_jit: Vec::new(),
            context_patterns: Vec::new(),
            active_patches: HashMap::new(),
            call_frequencies: HashMap::new(),
            dependencies: HashMap::new(),
            decay_counter: 0,
            eval_count: 0,
            next_opt_threshold: 100,
            score_threshold: 100,
            is_frozen: false,
        }
    }

    /// Stops all further learning.
    pub fn freeze(&mut self)
        ensures
            *final(self) == (OptimizerState { is_frozen: true, ..*old(self) }),
    {
        self.is_frozen = true;
    }

    /// Counts one evaluation and says whether the optimizer is due: it is
    /// due when the count reaches the threshold, which then grows by half
    /// (at least by 50). A frozen optimizer is never due and counts nothing.
    pub fn should_run_optimizer(&mut self) -> (r: bool)
        requires
            !old(self).is_frozen ==> old(self).eval_count < u64::MAX,
            !old(self).is_frozen && old(self).eval_count + 1 >= old(self).next_opt_threshold
                ==> old(self).next_opt_threshold + threshold_step(old(self).next_opt_threshold) <= u64::MAX,
        ensures
            old(self).is_frozen ==> !r && *final(self) == *old(self),
            !old(self).is_frozen ==> {
                &&& r == (old(self).eval_count + 1 >= old(self).next_opt_threshold)
                &&& *final(self) == (OptimizerState {
                    eval_count: (old(self).eval_count + 1) as u64,
                    next_opt_threshold: if r {
                        (old(self).next_opt_threshold + threshold_step(old(self).next_opt_threshold)) as u64
                    } else {
                        old(self).next_opt_threshold
                    },
                    ..*old(self)
                })
            },
    {
        if self.is_frozen {
            return false;
        }
        self.eval_count = self.eval_count + 1;
        if self.eval_count >= self.next_opt_threshold {
            let half = self.next_opt_threshold / 2;
            let step = if half > 50 { half } else { 50 };
            self.next_opt_threshold = self.next_opt_threshold + step;
            return true;
        }
        false
    }

    /// Records a failure of pattern `ctx`: one more failure, 50 off its score.
    pub fn penalize_pattern(&mut self, ctx: &PatternContext)
        requires
            can_penalize(*old(self), ctx@),
        ensures
            penalized(*old(self), *final(self), ctx@),
    {
        proof {
            lemma_find_key(patterns_view(self.context_patterns@), ctx@);
        }
        if let Some(i) = self.find_pattern(ctx) {
            assert(patterns_view(self.context_patterns@)[i as int].1 == self.context_patterns@[i as int].1);
            let key = self.context_patterns[i].0.duplicate();
            let mut stats = self.context_patterns[i].1;
            stats.failures = stats.failures + 1;
            stats.score = stats.score - 50;
            self.context_patterns.set(i, (key, stats));
        }
    }

    /// Where pattern `ctx` is recorded, if it is.
    fn find_pattern(&self, ctx: &PatternContext) -> (r: Option<usize>)
        ensures
            match r {
                Some(i) => i == find_key(patterns_view(self.context_patterns@), ctx@) && i < self.context_patterns@.len(),
                None => find_key(patterns_view(self.context_patterns@), ctx@) == -1,
            },
    {
        let ghost pv = patterns_view(self.context_patterns@);
        let mut i = self.context_patterns.len();
        assert(pv.take(i as int) =~= pv);
        while i > 0
            invariant
                i <= self.context_patterns@.len(),
                pv == patterns_view(self.context_patterns@),
                find_key(pv, ctx@) == find_key(pv.take(i as int), ctx@),
            decreases i,
        {
            assert(pv.take(i as int).drop_last() =~= pv.take(i - 1));
            assert(pv.take(i as int).last() == pv[i - 1]);
            assert(pv[i - 1].0 == self.context_patterns@[i - 1].0@);
            if self.context_patterns[i - 1].0.same_as(ctx) {
                return Some(i - 1);
            }
            i = i - 1;
        }
        None
    }

    /// Learns from one chunk of the trace: splits it into safe segments and
    /// records each segment (folded, if it folds) as a pattern.
    fn extract_patterns(&mut self, flat_ops: &[(Op, u64)], ips: &[usize], word_id: usize, loop_depth: usize)
        requires
            learn_chunk(old(self).learn_view(), flat_ops@, ips@, word_id, loop_depth, old(self).score_threshold) is Some,
            ips@.len() * 8 <= isize::MAX,
        ensures
            final(self).learn_view() == learn_chunk(old(self).learn_view(), flat_ops@, ips@, word_id, loop_depth, old(self).score_threshold)->0,
            final(self).call_frequencies@ == old(self).call_frequencies@,
            final(self).dependencies@ == old(self).dependencies@,
            final(self).active_patches@ == old(self).active_patches@,
            final(self).decay_counter == old(self).decay_counter,
            final(self).eval_count == old(self).eval_count,
            final(self).next_opt_threshold == old(self).next_opt_threshold,
            final(self).score_threshold == old(self).score_threshold,
            final(self).is_frozen == old(self).is_frozen,
    {
        if flat_ops.len() == 0 {
            return;
        }
        let segments = build_safe_segments(flat_ops);
        let depth_multiplier = (1 + loop_depth) as i64;
        let ghost segs = safe_segments(flat_ops@);
        let ghost starts = safe_starts(flat_ops@);
        let ghost m0 = old(self).learn_view();
        let threshold = self.score_threshold;
        proof {
            crate::optimizer::segmentation::lemma_safe_segments(flat_ops@);
            assert(segs.take(0) =~= Seq::<Seq<(Op, u64)>>::empty());
            assert(starts.take(0) =~= Seq::<int>::empty());
        }
        let mut k: usize = 0;
        while k < segments.len() && segments[k].start < ips.len()
            invariant
                segments@.len() == segs.len(),
                starts.len() == segs.len(),
                forall|j: int| 0 <= j < segments@.len() ==> (#[trigger] segments@[j]).ops@ == segs[j]
                    && segments@[j].start == starts[j],
                forall|j: int| 0 <= j < segs.len() ==> crate::optimizer::contract::addresses_fit(#[trigger] segs[j])
                    && segs[j].len() <= flat_ops@.len() && analysis(segs[j]) is Some,
                flat_ops@.len() * 16 <= isize::MAX,
                ips@.len() * 8 <= isize::MAX,
                k <= segments.len(),
                depth_multiplier == (1 + loop_depth) as i64,
                threshold == self.score_threshold,
                absorb_all(m0, segs, starts, ips@, word_id, loop_depth, depth_multiplier, threshold).learn is Some,
                absorb_all(m0, segs.take(k as int), starts.take(k as int), ips@, word_id, loop_depth, depth_multiplier, threshold)
                    == (AbsorbState { learn: Some(self.learn_view()), stopped: false }),
                self.call_frequencies@ == old(self).call_frequencies@,
                self.dependencies@ == old(self).dependencies@,
                self.active_patches@ == old(self).active_patches@,
                self.decay_counter == old(self).decay_counter,
                self.eval_count == old(self).eval_count,
                self.next_opt_threshold == old(self).next_opt_threshold,
                self.score_threshold == old(self).score_threshold,
                self.is_frozen == old(self).is_frozen,
            decreases segments.len() - k,
        {
            let ghost seg = segs[k as int];
            let ghost before = self.learn_view();
            proof {
                assert(segs.take(k + 1).drop_last() =~= segs.take(k as int));
                assert(starts.take(k + 1).drop_last() =~= starts.take(k as int));
                assert(segs.take(k + 1).last() == seg);
                assert(starts.take(k + 1).last() == starts[k as int]);
            }
            let seq = copy_ops(segments[k].ops.as_slice());
            let start_ip = ips[segments[k].start];
            proof {
                lemma_absorb_extends(m0, segs, starts, ips@, word_id, loop_depth, depth_multiplier, threshold, k + 1);
            }
            if let Some((contract, folded_opt)) = validate_sequence_contract(seq.as_slice()) {
                proof {
                    assert(is_contract_of(contract@, seq@));
                    assert(exists|c: ContractView| is_contract_of(c, seq@));
                    lemma_contract_unique(contract@, contract_view_of(seq@), seq@);
                }
                let actual_seq = match folded_opt {
                    Some(f) => f,
                    None => copy_ops(seq.as_slice()),
                };
                let ctx = PatternContext {
                    word_id,
                    loop_depth,
                    original_ops: seq,
                    ops: actual_seq,
                    contract: Some(contract),
                };
                assert(ctx@ == pattern_of(seg, word_id, loop_depth));
                self.absorb(ctx, start_ip, depth_multiplier);
            }
            k = k + 1;
        }
        proof {
            if k == segments.len() {
                assert(segs.take(k as int) =~= segs);
                assert(starts.take(k as int) =~= starts);
            } else {
                assert(segs.take(k + 1).drop_last() =~= segs.take(k as int));
                assert(starts.take(k + 1).drop_last() =~= starts.take(k as int));
                assert(starts.take(k + 1).last() == starts[k as int]);
                lemma_absorb_extends(m0, segs, starts, ips@, word_id, loop_depth, depth_multiplier, threshold, k + 1);
            }
        }
    }

    /// Records one sighting of a pattern (see `absorb_one`).
    fn absorb(&mut self, ctx: PatternContext, start_ip: usize, mult: i64)
        requires
            absorb_one(old(self).learn_view(), ctx@, start_ip, mult, old(self).score_threshold) is Some,
        ensures
            final(self).learn_view() == absorb_one(old(self).learn_view(), ctx@, start_ip, mult, old(self).score_threshold)->0,
            final(self).call_frequencies@ == old(self).call_frequencies@,
            final(self).dependencies@ == old(self).dependencies@,
            final(self).active_patches@ == old(self).active_patches@,
            final(self).decay_counter == old(self).decay_counter,
            final(self).eval_count == old(self).eval_count,
            final(self).next_opt_threshold == old(self).next_opt_threshold,
            final(self).score_threshold == old(self).score_threshold,
            final(self).is_frozen == old(self).is_frozen,
    {
        let ghost m = old(self).learn_view();
        let found = self.find_pattern(&ctx);
        let idx: usize = if found.is_none() {
            self.context_patterns.push((ctx.duplicate(), PatternStats {
                successes: 0,
                failures: 0,
                score: 0,
                instructions_saved: 0,
                jit_cycles: 0,
                fallback_cycles: 0,
                jit_executions: 0,
                fallback_executions: 0,
            }));
            assert(patterns_view(self.context_patterns@) =~= m.patterns.push((ctx@, zero_stats())));
            self.context_patterns.len() - 1
        } else {
            found.unwrap()
        };
        proof {
            lemma_find_key(m.patterns, ctx@);
        }
        assert(patterns_view(self.context_patterns@)[idx as int].1 == self.context_patterns@[idx as int].1);
        let mut stats = self.context_patterns[idx].1;
        if stats.failures > 3 {
            return;
        }
        stats.score = stats.score + mult;
        let key = ctx.duplicate();
        self.context_patterns.set(idx, (key, stats));
        assert(patterns_view(self.context_patterns@) =~= absorb_one(m, ctx@, start_ip, mult, self.score_threshold)->0.patterns);
        if stats.score >= self.score_threshold {
            let mut present = false;
            let mut j: usize = 0;
            while j < self.super_instructions.len()
                invariant
                    j <= self.super_instructions@.len(),
                    present == (exists|w: int| 0 <= w < j && supers_view(self.super_instructions@)[w] == ctx@),
                decreases self.super_instructions@.len() - j,
            {
                assert(supers_view(self.super_instructions@)[j as int] == self.super_instructions@[j as int]@);
                if self.super_instructions[j].same_as(&ctx) {
                    present = true;
                }
                j = j + 1;
            }
            if !present {
                self.super_instructions.push(ctx.duplicate());
                assert(supers_view(self.super_instructions@) =~= m.supers.push(ctx@));
            }
            if self.pending_jit.len() < MAX_PENDING_JIT {
                self.pending_jit.push((start_ip, ctx));
                assert(pending_view(self.pending_jit@) =~= m.pending.push((start_ip, ctx@)));
            }
        }
    }
}

/// How much the evaluation threshold grows once reached: half of it, at least 50.
pub open spec fn threshold_step(t: u64) -> u64 {
    if t / 2 > 50 {
        t / 2
    } else {
        50
    }
}

// ---------------------------------------------------------------------------
// Watching the runtime trace.

/// The dependency graph as sets of callees.
pub open spec fn deps_view(m: Map<usize, HashSet<usize>>) -> Map<usize, Set<usize>> {
    Map::new(|k: usize| m.contains_key(k), |k: usize| m[k]@)
}

/// Progress through the runtime trace.
pub struct WatchState {
    pub learn: Option<LearnView>,
    pub freqs: Map<usize, u64>,
    pub deps: Map<usize, Set<usize>>,
    pub active: Seq<usize>,
    pub loop_depth: usize,
    pub cur: Seq<(Op, u64)>,
    pub ips: Seq<usize>,
}

/// The word whose body is running, or `usize::MAX` at top level.
pub open spec fn top_word(active: Seq<usize>) -> usize {
    if active.len() > 0 {
        active.last()
    } else {
        usize::MAX
    }
}

pub open spec fn learn_from(w: WatchState, word: usize, loop_depth: usize, threshold: i64) -> Option<LearnView> {
    match w.learn {
        Some(m) => learn_chunk(m, w.cur, w.ips, word, loop_depth, threshold),
        None => None,
    }
}

/// One trace event: instructions accumulate into the current chunk; every
/// other event ends the chunk (which is learned from) and tracks loop
/// nesting, call nesting, call counts and caller/callee pairs. `learn`
/// becomes `None` when a counter would overflow.
pub open spec fn watch_step(w: WatchState, ev: TraceEvent, threshold: i64) -> WatchState {
    if w.learn is None {
        w
    } else {
        match ev {
            TraceEvent::Op(ip, op, data) => WatchState { cur: w.cur.push((op, data)), ips: w.ips.push(ip), ..w },
            TraceEvent::LoopStart => if w.loop_depth == usize::MAX {
                WatchState { learn: None, ..w }
            } else {
                let ld = (w.loop_depth + 1) as usize;
                WatchState {
                    learn: learn_from(w, top_word(w.active), ld, threshold),
                    loop_depth: ld,
                    cur: Seq::empty(),
                    ips: Seq::empty(),
                    ..w
                }
            },
            TraceEvent::LoopEnd => WatchState {
                learn: learn_from(w, top_word(w.active), w.loop_depth, threshold),
                loop_depth: if w.loop_depth > 0 {
                    (w.loop_depth - 1) as usize
                } else {
                    w.loop_depth
                },
                cur: Seq::empty(),
                ips: Seq::empty(),
                ..w
            },
            TraceEvent::EnterWord(idx) => {
                let deps = if w.active.len() > 0 {
                    let p = w.active.last();
                    let old = if w.deps.contains_key(p) {
                        w.deps[p]
                    } else {
                        Set::empty()
                    };
                    w.deps.insert(p, old.insert(idx))
                } else {
                    w.deps
                };
                let f = if w.freqs.contains_key(idx) {
                    w.freqs[idx]
                } else {
                    0
                };
                if f == u64::MAX {
                    WatchState { learn: None, ..w }
                } else {
                    WatchState {
                        learn: learn_from(w, idx, w.loop_depth, threshold),
                        freqs: w.freqs.insert(idx, (f + 1) as u64),
                        deps,
                        active: w.active.push(idx),
                        cur: Seq::empty(),
                        ips: Seq::empty(),
                        ..w
                    }
                }
            },
            TraceEvent::ExitWord => WatchState {
                learn: learn_from(w, top_word(w.active), w.loop_depth, threshold),
                active: if w.active.len() > 0 {
                    w.active.drop_last()
                } else {
                    w.active
                },
                cur: Seq::empty(),
                ips: Seq::empty(),
                ..w
            },
        }
    }
}

pub open spec fn watch_run(w0: WatchState, evs: Seq<TraceEvent>, threshold: i64) -> WatchState
    decreases evs.len(),
{
    if evs.len() == 0 {
        w0
    } else {
        watch_step(watch_run(w0, evs.drop_last(), threshold), evs.last(), threshold)
    }
}

proof fn lemma_watch_extends(w0: WatchState, evs: Seq<TraceEvent>, threshold: i64, j: int)
    requires
        0 <= j <= evs.len(),
        watch_run(w0, evs.take(j), threshold).learn is None,
    ensures
        watch_run(w0, evs, threshold).learn is None,
    decreases evs.len(),
{
    if j == evs.len() {
        assert(evs.take(j) =~= evs);
    } else {
        assert(evs.drop_last().take(j) =~= evs.take(j));
        lemma_watch_extends(w0, evs.drop_last(), threshold, j);
    }
}

proof fn lemma_watch_grows(w0: WatchState, evs: Seq<TraceEvent>, threshold: i64)
    requires
        w0.learn is Some,
        watch_run(w0, evs, threshold).learn is Some,
    ensures
        queue_grows(w0.learn->0, watch_run(w0, evs, threshold).learn->0),
    decreases evs.len(),
{
    if evs.len() == 0 {
        lemma_queue_grows_refl(w0.learn->0);
    } else {
        let w = watch_run(w0, evs.drop_last(), threshold);
        lemma_watch_grows(w0, evs.drop_last(), threshold);
        let w2 = watch_run(w0, evs, threshold);
        if w2.learn != w.learn {
            let (word, depth) = match evs.last() {
                TraceEvent::LoopStart => (top_word(w.active), (w.loop_depth + 1) as usize),
                TraceEvent::EnterWord(idx) => (idx, w.loop_depth),
                _ => (top_word(w.active), w.loop_depth),
            };
            assert(w2.learn == learn_chunk(w.learn->0, w.cur, w.ips, word, depth, threshold));
            lemma_learn_chunk_grows(w.learn->0, w.cur, w.ips, word, depth, threshold);
            lemma_queue_grows_trans(w0.learn->0, w.learn->0, w2.learn->0);
        }
    }
}

/// What the optimizer has learned after watching a trace.
pub struct Observed {
    pub learn: LearnView,
    pub freqs: Map<usize, u64>,
    pub deps: Map<usize, Set<usize>>,
    pub decay_counter: u64,
}

impl OptimizerState {
    pub open spec fn watch_start(&self) -> WatchState {
        WatchState {
            learn: Some(self.learn_view()),
            freqs: self.call_frequencies@,
            deps: deps_view(self.dependencies@),
            active: Seq::empty(),
            loop_depth: 0,
            cur: Seq::empty(),
            ips: Seq::empty(),
        }
    }

    /// The result of watching `trace`, including the learning from the last
    /// chunk and the count of watched events; `None` when a counter would
    /// overflow.
    pub open spec fn observed(&self, trace: Seq<TraceEvent>) -> Option<Observed> {
        let w = watch_run(self.watch_start(), trace, self.score_threshold);
        match learn_from(w, top_word(w.active), w.loop_depth, self.score_threshold) {
            Some(m) => if self.decay_counter + trace.len() <= u64::MAX {
                Some(
                    Observed {
                        learn: m,
                        freqs: w.freqs,
                        deps: w.deps,
                        decay_counter: (self.decay_counter + trace.len()) as u64,
                    },
                )
            } else {
                None
            },
            None => None,
        }
    }

    /// Learns from the runtime trace and empties it, counting its events.
    /// Once more than 200000 events have been counted, what was learned
    /// decays (see `apply_decay`) and the count starts again from zero. A
    /// frozen optimizer, or a trace of fewer than two events, leaves
    /// everything as it is.
    pub fn observe_runtime_traces(&mut self, trace_buffer: &mut Vec<TraceEvent>)
        requires
            old(self).is_frozen || old(trace_buffer)@.len() < 2 || old(self).observed(old(trace_buffer)@) is Some,
        ensures
            if old(self).is_frozen || old(trace_buffer)@.len() < 2 {
                &&& *final(self) == *old(self)
                &&& final(trace_buffer)@ == old(trace_buffer)@
            } else {
                let r = old(self).observed(old(trace_buffer)@)->0;
                &&& if r.decay_counter > 200000 {
                    &&& final(self).learn_view() == (LearnView { patterns: decayed_patterns(r.learn.patterns), ..r.learn })
                    &&& final(self).call_frequencies@ == halved_counts(r.freqs)
                    &&& final(self).decay_counter == 0
                } else {
                    &&& final(self).learn_view() == r.learn
                    &&& final(self).call_frequencies@ == r.freqs
                    &&& final(self).decay_counter == r.decay_counter
                }
                &&& deps_view(final(self).dependencies@) == r.deps
                &&& queue_grows(old(self).learn_view(), final(self).learn_view())
                &&& final(trace_buffer)@.len() == 0
                &&& final(self).active_patches@ == old(self).active_patches@
                &&& final(self).eval_count == old(self).eval_count
                &&& final(self).next_opt_threshold == old(self).next_opt_threshold
                &&& final(self).score_threshold == old(self).score_threshold
                &&& final(self).is_frozen == old(self).is_frozen
            },
    {
        broadcast use vstd::std_specs::hash::group_hash_axioms;
        if self.is_frozen || trace_buffer.len() < 2 {
            return;
        }
        let ghost w0 = old(self).watch_start();
        let ghost evs = trace_buffer@;
        let threshold = self.score_threshold;
        let mut active_words: Vec<usize> = Vec::new();
        let mut loop_depth: usize = 0;
        let mut current_seq: Vec<(Op, u64)> = Vec::new();
        let mut current_ips: Vec<usize> = Vec::new();
        let n = trace_buffer.len();
        let mut i: usize = 0;
        assert(evs.take(0) =~= Seq::<TraceEvent>::empty());
        assert(deps_view(self.dependencies@) =~= w0.deps);
        while i < n
            invariant
                n == evs.len(),
                evs == trace_buffer@,
                i <= n,
                threshold == self.score_threshold,
                watch_run(w0, evs, threshold).learn is Some,
                watch_run(w0, evs.take(i as int), threshold) == (WatchState {
                    learn: Some(self.learn_view()),
                    freqs: self.call_frequencies@,
                    deps: deps_view(self.dependencies@),
                    active: active_words@,
                    loop_depth,
                    cur: current_seq@,
                    ips: current_ips@,
                }),
                current_ips@.len() == current_seq@.len(),
                self.active_patches@ == old(self).active_patches@,
                self.decay_counter == old(self).decay_counter,
                self.eval_count == old(self).eval_count,
                self.next_opt_threshold == old(self).next_opt_threshold,
                self.score_threshold == old(self).score_threshold,
                self.is_frozen == old(self).is_frozen,
            decreases n - i,
        {
            let ev = trace_buffer[i];
            let ghost w = watch_run(w0, evs.take(i as int), threshold);
            proof {
                assert(evs.take(i + 1).drop_last() =~= evs.take(i as int));
                assert(evs.take(i + 1).last() == ev);
                if watch_run(w0, evs.take(i + 1), threshold).learn is None {
                    lemma_watch_extends(w0, evs, threshold, i + 1);
                }
            }
            match ev {
                TraceEvent::Op(ip, op, data) => {
                    current_seq.push((op, data));
                    current_ips.push(ip);
                },
                TraceEvent::LoopStart => {
                    loop_depth = loop_depth + 1;
                    let word = match active_words.last() {
                        Some(w) => *w,
                        None => usize::MAX,
                    };
                    self.extract_patterns(current_seq.as_slice(), current_ips.as_slice(), word, loop_depth);
                    current_seq.clear();
                    current_ips.clear();
                },
                TraceEvent::LoopEnd => {
                    let word = match active_words.last() {
                        Some(w) => *w,
                        None => usize::MAX,
                    };
                    self.extract_patterns(current_seq.as_slice(), current_ips.as_slice(), word, loop_depth);
                    if loop_depth > 0 {
                        loop_depth = loop_depth - 1;
                    }
                    current_seq.clear();
                    current_ips.clear();
                },
                TraceEvent::EnterWord(idx) => {
                    if active_words.len() > 0 {
                        let parent = active_words[active_words.len() - 1];
                        let mut callees = match self.dependencies.remove(&parent) {
                            Some(set) => set,
                            None => HashSet::new(),
                        };
                        callees.insert(idx);
                        self.dependencies.insert(parent, callees);
                        assert(deps_view(self.dependencies@) =~= w.deps.insert(parent, (if w.deps.contains_key(parent) { w.deps[parent] } else { Set::empty() }).insert(idx)));
                    }
                    active_words.push(idx);
                    let f = match self.call_frequencies.get(&idx) {
                        Some(c) => *c,
                        None => 0,
                    };
                    self.call_frequencies.insert(idx, f + 1);
                    self.extract_patterns(current_seq.as_slice(), current_ips.as_slice(), idx, loop_depth);
                    current_seq.clear();
                    current_ips.clear();
                },
                TraceEvent::ExitWord => {
                    let word = match active_words.last() {
                        Some(w) => *w,
                        None => usize::MAX,
                    };
                    self.extract_patterns(current_seq.as_slice(), current_ips.as_slice(), word, loop_depth);
                    active_words.pop();
                    current_seq.clear();
                    current_ips.clear();
                },
            }
            i = i + 1;
        }
        assert(evs.take(n as int) =~= evs);
        let word = match active_words.last() {
            Some(w) => *w,
            None => usize::MAX,
        };
        self.extract_patterns(current_seq.as_slice(), current_ips.as_slice(), word, loop_depth);
        self.decay_counter = self.decay_counter + n as u64;
        trace_buffer.clear();
        proof {
            let w = watch_run(w0, evs, threshold);
            lemma_watch_grows(w0, evs, threshold);
            lemma_learn_chunk_grows(w.learn->0, w.cur, w.ips, top_word(w.active), w.loop_depth, threshold);
            lemma_queue_grows_trans(old(self).learn_view(), w.learn->0, self.learn_view());
        }
        if self.decay_counter > 200000 {
            self.apply_decay();
        }
    }
}

/// The keys of a counter map.
fn key_list(m: &HashMap<usize, u64>) -> (r: Vec<usize>)
    ensures
        r@.to_set() == m@.dom(),
        r@.no_duplicates(),
{
    broadcast use vstd::std_specs::hash::group_hash_axioms;
    let ghost ks = vstd::std_specs::iter::IteratorSpec::remaining(&vstd::std_specs::hash::spec_keys_iter(m));
    let mut r: Vec<usize> = Vec::new();
    for k in it: m.keys()
        invariant
            it.seq() == ks,
            r@ == ks.take(it.index()).map_values(|x: &usize| *x),
    {
        r.push(*k);
        assert(ks.take(it.index() + 1).map_values(|x: &usize| *x) =~= ks.take(it.index()).map_values(|x: &usize| *x).push(*k));
    }
    assert(ks.take(ks.len() as int) =~= ks);
    assert(r@ =~= ks.unref());
    r
}

/// Half of `x`, rounded toward zero (as `x / 2` computes it).
pub open spec fn half(x: i64) -> i64 {
    if x >= 0 {
        (x / 2) as i64
    } else {
        (-((-(x as int)) / 2)) as i64
    }
}

/// Pattern statistics after a decay: each score halved, and the patterns
/// left with neither a positive score nor a failure dropped (the others
/// keep their order).
pub open spec fn decayed_patterns(ps: Seq<(PatternView, PatternStats)>) -> Seq<(PatternView, PatternStats)>
    decreases ps.len(),
{
    if ps.len() == 0 {
        ps
    } else {
        let rest = decayed_patterns(ps.drop_last());
        let st = PatternStats { score: half(ps.last().1.score), ..ps.last().1 };
        if st.score > 0 || st.failures > 0 {
            rest.push((ps.last().0, st))
        } else {
            rest
        }
    }
}

/// Halves `x`, rounding toward zero.
fn halve(x: i64) -> (r: i64)
    ensures
        r == half(x),
{
    if x >= 0 {
        x / 2
    } else {
        let m: i64 = -(x + 1);
        let q: i64 = m / 2;
        let r: i64 = m % 2;
        assert(m == 2 * q + r && 0 <= r < 2) by (nonlinear_arith)
            requires m >= 0, q == m / 2, r == m % 2;
        assert(-(x as int) == m + 1);
        assert((m + 1) / 2 == q + r) by (nonlinear_arith)
            requires m == 2 * q + r, 0 <= r < 2, q >= 0;
        -q - r
    }
}

/// Call counts after a decay: halved, and those not above 5 dropped.
pub open spec fn halved_counts(f: Map<usize, u64>) -> Map<usize, u64> {
    Map::new(|k: usize| f.contains_key(k) && f[k] / 2 > 5, |k: usize| (f[k] / 2) as u64)
}

impl OptimizerState {
    /// Applies a decay of what was learned: every pattern score is halved
    /// and patterns with neither a positive score nor a failure are
    /// forgotten, call counts are halved and those not above 5 forgotten,
    /// and the event count starts again from zero.
    pub fn apply_decay(&mut self)
        ensures
            patterns_view(final(self).context_patterns@) == decayed_patterns(patterns_view(old(self).context_patterns@)),
            final(self).call_frequencies@ == halved_counts(old(self).call_frequencies@),
            final(self).decay_counter == 0,
            final(self).super_instructions@ == old(self).super_instructions@,
            final(self).pending_jit@ == old(self).pending_jit@,
            final(self).dependencies@ == old(self).dependencies@,
            final(self).active_patches@ == old(self).active_patches@,
            final(self).eval_count == old(self).eval_count,
            final(self).next_opt_threshold == old(self).next_opt_threshold,
            final(self).score_threshold == old(self).score_threshold,
            final(self).is_frozen == old(self).is_frozen,
    {
        broadcast use vstd::std_specs::hash::group_hash_axioms;
        let ghost pv = patterns_view(self.context_patterns@);
        let mut kept: Vec<(PatternContext, PatternStats)> = Vec::new();
        let n = self.context_patterns.len();
        let mut i: usize = 0;
        assert(pv.take(0) =~= Seq::<(PatternView, PatternStats)>::empty());
        while i < n
            invariant
                n == self.context_patterns@.len(),
                pv == patterns_view(self.context_patterns@),
                i <= n,
                patterns_view(kept@) == decayed_patterns(pv.take(i as int)),
            decreases n - i,
        {
            let mut st = self.context_patterns[i].1;
            st.score = halve(st.score);
            proof {
                assert(pv.take(i + 1).drop_last() =~= pv.take(i as int));
                assert(pv[i as int] == (self.context_patterns@[i as int].0@, self.context_patterns@[i as int].1));
            }
            if st.score > 0 || st.failures > 0 {
                let key = self.context_patterns[i].0.duplicate();
                kept.push((key, st));
                assert(patterns_view(kept@) =~= decayed_patterns(pv.take(i + 1)));
            } else {
                assert(patterns_view(kept@) =~= decayed_patterns(pv.take(i + 1)));
            }
            i = i + 1;
        }
        assert(pv.take(n as int) =~= pv);
        self.context_patterns = kept;

        let keys = key_list(&self.call_frequencies);
        let ghost old_f = self.call_frequencies@;
        let mut halved: HashMap<usize, u64> = HashMap::new();
        let mut j: usize = 0;
        while j < keys.len()
            invariant
                j <= keys@.len(),
                keys@.to_set() == old_f.dom(),
                keys@.no_duplicates(),
                old_f == self.call_frequencies@,
                halved@ == Map::new(
                    |k: usize| keys@.take(j as int).contains(k) && old_f[k] / 2 > 5,
                    |k: usize| (old_f[k] / 2) as u64,
                ),
            decreases keys@.len() - j,
        {
            let k = keys[j];
            assert(keys@.contains(k));
            assert(old_f.contains_key(k));
            let c = match self.call_frequencies.get(&k) {
                Some(c) => *c,
                None => 0,
            };
            assert(keys@.take(j + 1) =~= keys@.take(j as int).push(k));
            assert(c == old_f[k]);
            assert forall|x: usize| keys@.take(j + 1).contains(x) <==> (keys@.take(j as int).contains(x) || x == k) by {
                if keys@.take(j + 1).contains(x) {
                    let w = choose|w: int| 0 <= w < j + 1 && #[trigger] keys@.take(j + 1)[w] == x;
                    if w < j {
                        assert(keys@.take(j as int)[w] == x);
                    }
                }
                if keys@.take(j as int).contains(x) {
                    let w = choose|w: int| 0 <= w < j && #[trigger] keys@.take(j as int)[w] == x;
                    assert(keys@.take(j + 1)[w] == x);
                }
                if x == k {
                    assert(keys@.take(j + 1)[j as int] == x);
                }
            }
            if c / 2 > 5 {
                halved.insert(k, c / 2);
            }
            assert(halved@ =~= Map::new(
                |x: usize| keys@.take(j + 1).contains(x) && old_f[x] / 2 > 5,
                |x: usize| (old_f[x] / 2) as u64,
            ));
            j = j + 1;
        }
        assert(keys@.take(j as int) =~= keys@);
        assert(halved@ =~= halved_counts(old_f));
        self.call_frequencies = halved;
        self.decay_counter = 0;
    }
}

/// A versioned snapshot of the optimizer state.
pub struct PersistenceContainer {
    pub magic: [u8; 8],
    pub version: u32,
    /// 1: x86_64; 0: any other architecture.
    pub arch_id: u32,
    pub state: OptimizerState,
}

/// The bytes every snapshot starts with: "KAIFORTH".
pub open spec fn snapshot_magic() -> Seq<u8> {
    seq![0x4Bu8, 0x41u8, 0x49u8, 0x46u8, 0x4Fu8, 0x52u8, 0x54u8, 0x48u8]
}

/// The snapshot format version this library reads and writes.
pub const SNAPSHOT_VERSION: u32 = 6;

/// Whether `c` is the snapshot of `state` for architecture `arch_id` in
/// the current format.
pub open spec fn wraps(c: PersistenceContainer, state: OptimizerState, arch_id: u32) -> bool {
    &&& c.magic@ == snapshot_magic()
    &&& c.version == SNAPSHOT_VERSION
    &&& c.arch_id == arch_id
    &&& c.state == state
}

/// What reading the state out of snapshot `c` gives: its state when it
/// carries the magic bytes and the current version, an `Abort` error of the
/// optimization phase otherwise.
pub open spec fn unwrapped(c: PersistenceContainer) -> ForthResult<OptimizerState> {
    if c.magic@ == snapshot_magic() && c.version == SNAPSHOT_VERSION {
        Ok(c.state)
    } else {
        Err(ForthError { kind: ForthErrorKind::Abort, phase: ForthPhase::Optimization })
    }
}

/// A saved state is read back unchanged: unwrapping a snapshot made of a
/// state gives that state.
pub proof fn lemma_snapshot_roundtrip(c: PersistenceContainer, state: OptimizerState, arch_id: u32)
    requires
        wraps(c, state, arch_id),
    ensures
        unwrapped(c) == Ok::<OptimizerState, ForthError>(state),
{
}

impl PersistenceContainer {
    /// Wraps `state` in a snapshot of the current format for architecture `arch_id`.
    pub fn wrap(state: OptimizerState, arch_id: u32) -> (r: Self)
        ensures
            wraps(r, state, arch_id),
    {
        let magic: [u8; 8] = [0x4B, 0x41, 0x49, 0x46, 0x4F, 0x52, 0x54, 0x48];
        assert(magic@ =~= snapshot_magic());
        PersistenceContainer { magic, version: SNAPSHOT_VERSION, arch_id, state }
    }

    /// The state inside a snapshot, provided it carries the magic bytes and
    /// the current version; otherwise an `Abort` error of the optimization
    /// phase.
    pub fn unwrap_state(self) -> (r: ForthResult<OptimizerState>)
        ensures
            r == unwrapped(self),
    {
        let expected: [u8; 8] = [0x4B, 0x41, 0x49, 0x46, 0x4F, 0x52, 0x54, 0x48];
        assert(expected@ =~= snapshot_magic());
        let mut same = true;
        let mut i: usize = 0;
        while i < 8
            invariant
                i <= 8,
                expected@ == snapshot_magic(),
                same == (forall|k: int| 0 <= k < i ==> self.magic@[k] == expected@[k]),
            decreases 8 - i,
        {
            if self.magic[i] != expected[i] {
                same = false;
            }
            i = i + 1;
        }
        if !same || self.version != SNAPSHOT_VERSION {
            proof {
                if same {
                    assert(self.magic@ =~= snapshot_magic());
                }
            }
            return Err(ForthError::new(ForthErrorKind::Abort, ForthPhase::Optimization));
        }
        assert(self.magic@ =~= snapshot_magic());
        Ok(self.state)
    }
}

} // verus!
