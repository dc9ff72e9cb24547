use crate::common::types::{Op, SemanticContract};
use crate::optimizer::contract::{
    validate_sequence_contract, op_effect, analysis, addresses_fit, is_contract_of,
};
use vstd::prelude::*;

verus! {

/// A maximal run of analyzable instructions together with its contract.
pub struct SafeSegment {
    pub ops: Vec<(Op, u64)>,
    pub contract: SemanticContract,
    /// Where the run starts in the sequence it was cut from.
    pub start: usize,
}

/// The state of the splitter: finished runs and where each starts, the
/// run being built and where it starts, and the data stack depth reached
/// inside it.
pub struct SegScan {
    pub done: Seq<Seq<(Op, u64)>>,
    pub starts: Seq<int>,
    pub cur: Seq<(Op, u64)>,
    pub cur_start: int,
    pub depth: int,
}

/// Closes the run being built, if it is non-empty.
pub open spec fn flush(st: SegScan) -> SegScan {
    if st.cur.len() > 0 {
        SegScan { done: st.done.push(st.cur), starts: st.starts.push(st.cur_start), cur: Seq::empty(), cur_start: 0, depth: 0 }
    } else {
        st
    }
}

/// One instruction of the splitter, the `i`-th of the sequence: an
/// instruction without a known effect closes the current run and is left
/// out; one that would consume below the run's starting depth starts a new
/// run.
pub open spec fn seg_step(st: SegScan, op: Op, data: u64, i: int) -> SegScan {
    match op_effect(op) {
        None => flush(st),
        Some(e) => {
            let st1 = if st.depth - e.pop_d < 0 {
                flush(st)
            } else {
                st
            };
            SegScan {
                done: st1.done,
                starts: st1.starts,
                cur: st1.cur.push((op, data)),
                cur_start: if st1.cur.len() == 0 { i } else { st1.cur_start },
                depth: st1.depth - e.pop_d + e.push_d,
            }
        },
    }
}

pub open spec fn seg_scan(s: Seq<(Op, u64)>) -> SegScan
    decreases s.len(),
{
    if s.len() == 0 {
        SegScan { done: Seq::empty(), starts: Seq::empty(), cur: Seq::empty(), cur_start: 0, depth: 0 }
    } else {
        let st = seg_scan(s.drop_last());
        seg_step(st, s.last().0, s.last().1, s.len() - 1)
    }
}

/// The runs a sequence splits into, in order.
pub open spec fn raw_segments(s: Seq<(Op, u64)>) -> Seq<Seq<(Op, u64)>> {
    flush(seg_scan(s)).done
}

/// Where each run of `raw_segments` starts in the sequence.
pub open spec fn raw_starts(s: Seq<(Op, u64)>) -> Seq<int> {
    flush(seg_scan(s)).starts
}

/// The starts of the runs whose analysis succeeds, in order.
pub open spec fn keep_starts(raw: Seq<Seq<(Op, u64)>>, starts: Seq<int>) -> Seq<int>
    decreases raw.len(),
{
    if raw.len() == 0 || starts.len() == 0 {
        Seq::empty()
    } else {
        let r = keep_starts(raw.drop_last(), starts.drop_last());
        if analysis(raw.last()) is Some {
            r.push(starts.last())
        } else {
            r
        }
    }
}

/// Where each safe segment starts in the sequence.
pub open spec fn safe_starts(s: Seq<(Op, u64)>) -> Seq<int> {
    keep_starts(raw_segments(s), raw_starts(s))
}

/// The runs whose analysis succeeds, in order.
pub open spec fn keep_analyzable(raw: Seq<Seq<(Op, u64)>>) -> Seq<Seq<(Op, u64)>>
    decreases raw.len(),
{
    if raw.len() == 0 {
        raw
    } else {
        let r = keep_analyzable(raw.drop_last());
        if analysis(raw.last()) is Some {
            r.push(raw.last())
        } else {
            r
        }
    }
}

pub open spec fn safe_segments(s: Seq<(Op, u64)>) -> Seq<Seq<(Op, u64)>> {
    keep_analyzable(raw_segments(s))
}

/// No run of the sequence makes the contract's address arithmetic overflow.
pub open spec fn segments_fit(s: Seq<(Op, u64)>) -> bool {
    forall|k: int| 0 <= k < raw_segments(s).len() ==> addresses_fit(#[trigger] raw_segments(s)[k])
}

/// The segments built so far match the analyzable runs among `done`,
/// which start at `starts`.
spec fn built(segs: Seq<SafeSegment>, done: Seq<Seq<(Op, u64)>>, starts: Seq<int>) -> bool {
    &&& segs.len() == keep_analyzable(done).len()
    &&& segs.len() == keep_starts(done, starts).len()
    &&& forall|k: int| 0 <= k < segs.len() ==> (#[trigger] segs[k]).ops@ == keep_analyzable(done)[k]
        && is_contract_of(segs[k].contract@, segs[k].ops@)
        && segs[k].start == keep_starts(done, starts)[k]
}

/// Splits a trace into maximal runs of analyzable instructions and gives
/// each run whose analysis succeeds its contract and where it starts.
pub fn build_safe_segments(seq: &[(Op, u64)]) -> (r: Vec<SafeSegment>)
    requires
        seq@.len() * 16 <= isize::MAX,
        segments_fit(seq@),
    ensures
        r@.len() == safe_segments(seq@).len(),
        r@.len() == safe_starts(seq@).len(),
        forall|k: int| 0 <= k < r@.len() ==> (#[trigger] r@[k]).ops@ == safe_segments(seq@)[k]
            && is_contract_of(r@[k].contract@, r@[k].ops@)
            && r@[k].start == safe_starts(seq@)[k],
{
    let mut segments: Vec<SafeSegment> = Vec::new();
    let mut current_ops: Vec<(Op, u64)> = Vec::new();
    let mut current_depth: i64 = 0;
    let mut min_depth: i64 = 0;
    let mut max_depth: i64 = 0;
    let mut cur_start: usize = 0;
    let n = seq.len();
    let mut i: usize = 0;
    assert(seq@.take(0) =~= Seq::<(Op, u64)>::empty());
    while i < n
        invariant
            n == seq@.len(),
            n * 16 <= isize::MAX,
            i <= n,
            segments_fit(seq@),
            seg_scan(seq@.take(i as int)) == (SegScan { cur: current_ops@, cur_start: seg_scan(seq@.take(i as int)).cur_start, depth: current_depth as int, ..seg_scan(seq@.take(i as int)) }),
            current_ops@.len() > 0 ==> seg_scan(seq@.take(i as int)).cur_start == cur_start as int,
            built(segments@, seg_scan(seq@.take(i as int)).done, seg_scan(seq@.take(i as int)).starts),
            current_ops@.len() <= i,
            current_ops@.len() == 0 ==> current_depth == 0,
            -3 * i <= current_depth <= 4 * i,
        decreases n - i,
    {
        let (op, data) = seq[i];
        let ghost before = seg_scan(seq@.take(i as int));
        proof {
            lemma_scan_lengths(seq@.take(i as int));
            assert(seq@.take(i + 1).drop_last() =~= seq@.take(i as int));
            crate::optimizer::contract::lemma_effect_bounds(op);
        }
        let contract = match op.inline_contract() {
            Some(c) => c,
            None => {
                if current_ops.len() > 0 {
                    proof {
                        lemma_done_fit(seq@, i + 1);
                        assert(seg_scan(seq@.take(i + 1)).done.last() == current_ops@);
                    }
                    let ops = current_ops;
                    close_run(&mut segments, ops, cur_start, min_depth, max_depth, current_depth, Ghost(before.done), Ghost(before.starts));
                    current_ops = Vec::new();
                    current_depth = 0;
                    min_depth = 0;
                    max_depth = 0;
                }
                i = i + 1;
                continue;
            },
        };
        if current_depth - (contract.pop_d as i64) < 0 {
            if current_ops.len() > 0 {
                proof {
                    lemma_done_fit(seq@, i + 1);
                    assert(seg_scan(seq@.take(i + 1)).done.last() == current_ops@);
                }
                let ops = current_ops;
                close_run(&mut segments, ops, cur_start, min_depth, max_depth, current_depth, Ghost(before.done), Ghost(before.starts));
                current_ops = Vec::new();
                current_depth = 0;
                min_depth = 0;
                max_depth = 0;
            }
        }
        if op == Op::Jump || op == Op::JZ {
            let target_idx_i = current_ops.len() as i64 + 1 + data as i64;
            if target_idx_i < 0 || target_idx_i >= (current_ops.len() + 32) as i64 {
                if current_ops.len() > 0 {
                    let ops = current_ops;
                    close_run(&mut segments, ops, cur_start, min_depth, max_depth, current_depth, Ghost(before.done), Ghost(before.starts));
                    current_ops = Vec::new();
                    current_depth = 0;
                    min_depth = 0;
                    max_depth = 0;
                }
            }
        }
        if current_ops.len() == 0 {
            cur_start = i;
        }
        current_ops.push((op, data));
        current_depth = current_depth - contract.pop_d as i64;
        if current_depth < min_depth {
            min_depth = current_depth;
        }
        current_depth = current_depth + contract.push_d as i64;
        if current_depth > max_depth {
            max_depth = current_depth;
        }
        i = i + 1;
    }
    assert(seq@.take(n as int) =~= seq@);
    proof {
        lemma_scan_lengths(seq@);
    }
    if current_ops.len() > 0 {
        proof {
            assert(raw_segments(seq@).last() == current_ops@);
        }
        close_run(&mut segments, current_ops, cur_start, min_depth, max_depth, current_depth, Ghost(seg_scan(seq@).done), Ghost(seg_scan(seq@).starts));
    }
    segments
}

/// Every kept run is one of the runs.
pub proof fn lemma_keep_from(raw: Seq<Seq<(Op, u64)>>)
    ensures
        forall|k: int| 0 <= k < keep_analyzable(raw).len() ==> exists|j: int| 0 <= j < raw.len() && #[trigger] raw[j] == #[trigger] keep_analyzable(raw)[k],
        forall|k: int| 0 <= k < keep_analyzable(raw).len() ==> analysis(#[trigger] keep_analyzable(raw)[k]) is Some,
    decreases raw.len(),
{
    if raw.len() > 0 {
        lemma_keep_from(raw.drop_last());
        let kd = keep_analyzable(raw.drop_last());
        let kr = keep_analyzable(raw);
        assert forall|k: int| 0 <= k < kr.len() implies exists|j: int| 0 <= j < raw.len() && #[trigger] raw[j] == #[trigger] kr[k] by {
            if k < kd.len() {
                assert(kr[k] == kd[k]);
                let j = choose|j: int| 0 <= j < raw.drop_last().len() && #[trigger] raw.drop_last()[j] == kd[k];
                assert(raw[j] == raw.drop_last()[j]);
            } else {
                assert(raw[raw.len() - 1] == kr[k]);
            }
        }
        assert forall|k: int| 0 <= k < kr.len() implies analysis(#[trigger] kr[k]) is Some by {
            if k < kd.len() {
                assert(kr[k] == kd[k]);
            }
        }
    }
}

/// No run is longer than the sequence it comes from.
pub proof fn lemma_scan_lengths(s: Seq<(Op, u64)>)
    ensures
        seg_scan(s).cur.len() <= s.len(),
        seg_scan(s).done.len() == seg_scan(s).starts.len(),
        forall|k: int| 0 <= k < seg_scan(s).done.len() ==> (#[trigger] seg_scan(s).done[k]).len() <= s.len(),
    decreases s.len(),
{
    if s.len() > 0 {
        lemma_scan_lengths(s.drop_last());
    }
}

/// Every safe segment fits and is no longer than the sequence.
pub proof fn lemma_safe_segments(s: Seq<(Op, u64)>)
    requires
        segments_fit(s),
    ensures
        forall|k: int| 0 <= k < safe_segments(s).len() ==> addresses_fit(#[trigger] safe_segments(s)[k])
            && safe_segments(s)[k].len() <= s.len() && analysis(safe_segments(s)[k]) is Some,
{
    let raw = raw_segments(s);
    lemma_keep_from(raw);
    lemma_scan_lengths(s);
    assert forall|k: int| 0 <= k < safe_segments(s).len() implies addresses_fit(#[trigger] safe_segments(s)[k])
        && safe_segments(s)[k].len() <= s.len() && analysis(safe_segments(s)[k]) is Some by {
        let j = choose|j: int| 0 <= j < raw.len() && #[trigger] raw[j] == safe_segments(s)[k];
        assert(addresses_fit(raw[j]));
        if j < seg_scan(s).done.len() {
            assert(raw[j] == seg_scan(s).done[j]);
        }
    }
}

pub open spec fn is_prefix(p: Seq<Seq<(Op, u64)>>, q: Seq<Seq<(Op, u64)>>) -> bool {
    p.len() <= q.len() && forall|k: int| 0 <= k < p.len() ==> #[trigger] p[k] == q[k]
}

proof fn lemma_scan_prefix(s: Seq<(Op, u64)>, j: int)
    requires
        0 <= j <= s.len(),
    ensures
        is_prefix(seg_scan(s.take(j)).done, seg_scan(s).done),
    decreases s.len(),
{
    if j == s.len() {
        assert(s.take(j) =~= s);
    } else {
        assert(s.drop_last().take(j) =~= s.take(j));
        lemma_scan_prefix(s.drop_last(), j);
    }
}

/// The runs finished while scanning a prefix are the first runs of the whole.
proof fn lemma_done_prefix(s: Seq<(Op, u64)>, j: int)
    requires
        0 <= j <= s.len(),
    ensures
        is_prefix(seg_scan(s.take(j)).done, raw_segments(s)),
{
    lemma_scan_prefix(s, j);
}

proof fn lemma_keep_push(d: Seq<Seq<(Op, u64)>>, c: Seq<(Op, u64)>)
    ensures
        keep_analyzable(d.push(c)) == if analysis(c) is Some {
            keep_analyzable(d).push(c)
        } else {
            keep_analyzable(d)
        },
{
    assert(d.push(c).drop_last() =~= d);
}

proof fn lemma_keep_starts_len(d: Seq<Seq<(Op, u64)>>, st: Seq<int>)
    requires
        d.len() == st.len(),
    ensures
        keep_starts(d, st).len() == keep_analyzable(d).len(),
    decreases d.len(),
{
    if d.len() > 0 {
        lemma_keep_starts_len(d.drop_last(), st.drop_last());
    }
}

proof fn lemma_keep_starts_push(d: Seq<Seq<(Op, u64)>>, st: Seq<int>, c: Seq<(Op, u64)>, x: int)
    requires
        d.len() == st.len(),
    ensures
        keep_starts(d.push(c), st.push(x)) == if analysis(c) is Some {
            keep_starts(d, st).push(x)
        } else {
            keep_starts(d, st)
        },
{
    assert(d.push(c).drop_last() =~= d);
    assert(st.push(x).drop_last() =~= st);
}

/// Closes a run that starts at `start`: appends its segment when its
/// analysis succeeds.
fn close_run(
    segments: &mut Vec<SafeSegment>,
    ops: Vec<(Op, u64)>,
    start: usize,
    min_d: i64,
    max_d: i64,
    final_d: i64,
    Ghost(done): Ghost<Seq<Seq<(Op, u64)>>>,
    Ghost(starts): Ghost<Seq<int>>,
)
    requires
        built(old(segments)@, done, starts),
        done.len() == starts.len(),
        ops@.len() * 16 <= isize::MAX,
        addresses_fit(ops@),
    ensures
        built(final(segments)@, done.push(ops@), starts.push(start as int)),
{
    let ghost c = ops@;
    proof {
        lemma_keep_push(done, c);
        lemma_keep_starts_push(done, starts, c, start as int);
        lemma_keep_starts_len(done, starts);
        lemma_keep_starts_len(done.push(c), starts.push(start as int));
    }
    if let Some(s) = finalize_segment(ops, start, min_d, max_d, final_d) {
        segments.push(s);
        assert(built(segments@, done.push(c), starts.push(start as int))) by {
            let ks = keep_analyzable(done.push(c));
            let kst = keep_starts(done.push(c), starts.push(start as int));
            assert forall|k: int| 0 <= k < segments@.len() implies (#[trigger] segments@[k]).ops@ == ks[k]
                && is_contract_of(segments@[k].contract@, segments@[k].ops@) && segments@[k].start == kst[k] by {
                if k < segments@.len() - 1 {
                    assert(segments@[k] == old(segments)@[k]);
                }
            }
        }
    }
}

/// Every run finished while scanning a prefix fits.
proof fn lemma_done_fit(s: Seq<(Op, u64)>, j: int)
    requires
        0 <= j <= s.len(),
        segments_fit(s),
    ensures
        forall|k: int| 0 <= k < seg_scan(s.take(j)).done.len() ==> addresses_fit(#[trigger] seg_scan(s.take(j)).done[k]),
{
    lemma_done_prefix(s, j);
    let d = seg_scan(s.take(j)).done;
    assert forall|k: int| 0 <= k < d.len() implies addresses_fit(#[trigger] d[k]) by {
        assert(d[k] == raw_segments(s)[k]);
    }
}

/// Gives a run that starts at `start` its contract, if its analysis succeeds.
fn finalize_segment(ops: Vec<(Op, u64)>, start: usize, _min_d: i64, _max_d: i64, _final_d: i64) -> (r: Option<SafeSegment>)
    requires
        ops@.len() * 16 <= isize::MAX,
        addresses_fit(ops@),
    ensures
        r is Some <==> analysis(ops@) is Some,
        r matches Some(seg) ==> seg.ops@ == ops@ && is_contract_of(seg.contract@, ops@) && seg.start == start,
{
    match validate_sequence_contract(ops.as_slice()) {
        Some((contract, _)) => Some(SafeSegment { ops, contract, start }),
        None => None,
    }
}

} // verus!
