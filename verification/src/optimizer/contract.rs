use crate::common::types::{
    Op, SemanticContract, ContractView, MemoryAccess, MemoryAccessView, AddressRange, Sym,
    sort_by_start, sorted_by_start, lemma_sort_by_start, access_alias_risk,
};
use crate::common::error::ForthError;
use crate::common::types::ExecutionStatus;
use crate::vm::semantics::{VmView, SysView, Env, step_spec};
use vstd::prelude::*;

verus! {

/// The stack and memory effect of a single instruction.
pub struct OpEffect {
    pub pop_d: usize,
    pub push_d: usize,
    pub max_d: usize,
    pub pop_r: usize,
    pub push_r: usize,
    pub reads: bool,
    pub writes: bool,
    pub alias: bool,
    pub pure: bool,
    pub side_effects: bool,
}

pub open spec fn effect(
    pop_d: usize,
    push_d: usize,
    max_d: usize,
    pop_r: usize,
    push_r: usize,
    reads: bool,
    writes: bool,
    alias: bool,
    pure: bool,
    side_effects: bool,
) -> OpEffect {
    OpEffect { pop_d, push_d, max_d, pop_r, push_r, reads, writes, alias, pure, side_effects }
}

/// The effect of each instruction the optimizer understands; `None` for the others.
pub open spec fn op_effect(op: Op) -> Option<OpEffect> {
    match op {
        Op::Noop => Some(effect(0, 0, 0, 0, 0, false, false, false, true, false)),
        Op::Stop => Some(effect(0, 0, 0, 0, 0, false, false, false, false, true)),
        Op::Push => Some(effect(0, 1, 1, 0, 0, false, false, false, true, false)),
        Op::PushF => Some(effect(0, 0, 0, 0, 0, false, false, false, false, false)),
        Op::Drop => Some(effect(1, 0, 0, 0, 0, false, false, false, true, false)),
        Op::Dup => Some(effect(1, 2, 1, 0, 0, false, false, false, true, false)),
        Op::Square | Op::Inc | Op::Dec | Op::IsZero => Some(effect(1, 1, 0, 0, 0, false, false, false, true, false)),
        Op::Swap => Some(effect(2, 2, 0, 0, 0, false, false, false, true, false)),
        Op::Over => Some(effect(2, 3, 1, 0, 0, false, false, false, true, false)),
        Op::Nip => Some(effect(2, 1, 0, 0, 0, false, false, false, true, false)),
        Op::Drop2 => Some(effect(2, 0, 0, 0, 0, false, false, false, true, false)),
        Op::Dup2 => Some(effect(2, 4, 2, 0, 0, false, false, false, true, false)),
        Op::Tuck => Some(effect(2, 3, 1, 0, 0, false, false, false, true, false)),
        Op::Add | Op::Sub | Op::Mul | Op::Div => Some(effect(2, 1, 0, 0, 0, false, false, false, true, false)),
        Op::Rot => Some(effect(3, 3, 0, 0, 0, false, false, false, true, false)),
        Op::Fetch => Some(effect(1, 1, 0, 0, 0, true, false, false, false, false)),
        Op::Store => Some(effect(2, 0, 0, 0, 0, false, true, true, false, true)),
        Op::ToR => Some(effect(1, 0, 0, 0, 1, false, false, false, false, false)),
        Op::FromR => Some(effect(0, 1, 1, 1, 0, false, false, false, false, false)),
        Op::RFetch => Some(effect(0, 1, 1, 0, 0, false, false, false, false, false)),
        Op::Dot | Op::Emit => Some(effect(1, 0, 0, 0, 0, false, false, true, false, true)),
        Op::Cr => Some(effect(0, 0, 0, 0, 0, false, false, true, false, true)),
        Op::Throw => Some(effect(1, 0, 0, 0, 0, false, false, true, false, true)),
        Op::Eq => Some(effect(2, 1, 2, 0, 0, false, false, false, true, false)),
        Op::Lt => Some(effect(2, 1, 2, 0, 0, false, false, false, true, false)),
        Op::Gt => Some(effect(2, 1, 2, 0, 0, false, false, false, true, false)),
        _ => None,
    }
}

/// The contract that describes a single instruction with effect `e`.
pub open spec fn effect_contract(e: OpEffect) -> ContractView {
    ContractView {
        pop_d: e.pop_d,
        push_d: e.push_d,
        max_d: e.max_d,
        pop_r: e.pop_r,
        push_r: e.push_r,
        max_r: 0,
        mem: MemoryAccessView {
            read_set: Seq::empty(),
            write_set: Seq::empty(),
            unknown_read: e.reads,
            unknown_write: e.writes,
            alias_barrier: e.alias,
        },
        pure: e.pure,
        side_effects: e.side_effects,
    }
}

fn contract_of_effect(
    pop_d: usize,
    push_d: usize,
    max_d: usize,
    pop_r: usize,
    push_r: usize,
    reads: bool,
    writes: bool,
    alias: bool,
    pure: bool,
    side_effects: bool,
) -> (c: SemanticContract)
    ensures
        c@ == effect_contract(
            effect(pop_d, push_d, max_d, pop_r, push_r, reads, writes, alias, pure, side_effects),
        ),
{
    SemanticContract {
        pop_d,
        push_d,
        max_d,
        pop_r,
        push_r,
        max_r: 0,
        mem: MemoryAccess {
            read_set: Vec::new(),
            write_set: Vec::new(),
            unknown_read: reads,
            unknown_write: writes,
            alias_barrier: alias,
        },
        pure,
        side_effects,
    }
}

impl Op {
    /// The contract of this single instruction, for the instructions the
    /// optimizer understands.
    pub fn inline_contract(&self) -> (r: Option<SemanticContract>)
        ensures
            r is Some <==> op_effect(*self) is Some,
            r matches Some(c) ==> c@ == effect_contract(op_effect(*self)->0),
    {
        match self {
            Op::Noop => Some(contract_of_effect(0, 0, 0, 0, 0, false, false, false, true, false)),
        Op::Stop => Some(contract_of_effect(0, 0, 0, 0, 0, false, false, false, false, true)),
            Op::Push => Some(contract_of_effect(0, 1, 1, 0, 0, false, false, false, true, false)),
            Op::PushF => Some(contract_of_effect(0, 0, 0, 0, 0, false, false, false, false, false)),
            Op::Drop => Some(contract_of_effect(1, 0, 0, 0, 0, false, false, false, true, false)),
            Op::Dup => Some(contract_of_effect(1, 2, 1, 0, 0, false, false, false, true, false)),
            Op::Square | Op::Inc | Op::Dec | Op::IsZero => Some(contract_of_effect(1, 1, 0, 0, 0, false, false, false, true, false)),
            Op::Swap => Some(contract_of_effect(2, 2, 0, 0, 0, false, false, false, true, false)),
        Op::Over => Some(contract_of_effect(2, 3, 1, 0, 0, false, false, false, true, false)),
            Op::Nip => Some(contract_of_effect(2, 1, 0, 0, 0, false, false, false, true, false)),
            Op::Drop2 => Some(contract_of_effect(2, 0, 0, 0, 0, false, false, false, true, false)),
            Op::Dup2 => Some(contract_of_effect(2, 4, 2, 0, 0, false, false, false, true, false)),
            Op::Tuck => Some(contract_of_effect(2, 3, 1, 0, 0, false, false, false, true, false)),
            Op::Add | Op::Sub | Op::Mul | Op::Div => Some(contract_of_effect(2, 1, 0, 0, 0, false, false, false, true, false)),
            Op::Rot => Some(contract_of_effect(3, 3, 0, 0, 0, false, false, false, true, false)),
            Op::Fetch => Some(contract_of_effect(1, 1, 0, 0, 0, true, false, false, false, false)),
            Op::Store => Some(contract_of_effect(2, 0, 0, 0, 0, false, true, true, false, true)),
            Op::ToR => Some(contract_of_effect(1, 0, 0, 0, 1, false, false, false, false, false)),
            Op::FromR => Some(contract_of_effect(0, 1, 1, 1, 0, false, false, false, false, false)),
        Op::RFetch => Some(contract_of_effect(0, 1, 1, 0, 0, false, false, false, false, false)),
            Op::Dot | Op::Emit => Some(contract_of_effect(1, 0, 0, 0, 0, false, false, true, false, true)),
            Op::Cr => Some(contract_of_effect(0, 0, 0, 0, 0, false, false, true, false, true)),
            Op::Throw => Some(contract_of_effect(1, 0, 0, 0, 0, false, false, true, false, true)),
            Op::Eq => Some(contract_of_effect(2, 1, 2, 0, 0, false, false, false, true, false)),
            Op::Lt => Some(contract_of_effect(2, 1, 2, 0, 0, false, false, false, true, false)),
            Op::Gt => Some(contract_of_effect(2, 1, 2, 0, 0, false, false, false, true, false)),
            _ => None,
        }
    }
}

/// Bounds on every instruction's effect.
pub proof fn lemma_effect_bounds(op: Op)
    ensures
        op_effect(op) matches Some(e) ==> e.pop_d <= 3 && e.push_d <= 4 && e.pop_r <= 1
            && e.push_r <= 1,
{
}

// ---------------------------------------------------------------------------
// First pass: stack depths.

/// Running depths of the data stack and return stack across a sequence,
/// relative to where it starts, and the effects seen so far.
pub struct DepthScan {
    pub min_d: int,
    pub cur_d: int,
    pub max_d: int,
    pub min_r: int,
    pub cur_r: int,
    pub unknown_read: bool,
    pub unknown_write: bool,
    pub pure: bool,
    pub side_effects: bool,
}

pub open spec fn scan_start() -> DepthScan {
    DepthScan {
        min_d: 0,
        cur_d: 0,
        max_d: 0,
        min_r: 0,
        cur_r: 0,
        unknown_read: false,
        unknown_write: false,
        pure: true,
        side_effects: false,
    }
}

pub open spec fn scan_step(st: DepthScan, e: OpEffect) -> DepthScan {
    let d1 = st.cur_d - e.pop_d;
    let d2 = d1 + e.push_d;
    let r1 = st.cur_r - e.pop_r;
    DepthScan {
        min_d: if d1 < st.min_d { d1 } else { st.min_d },
        cur_d: d2,
        max_d: if d2 > st.max_d { d2 } else { st.max_d },
        min_r: if r1 < st.min_r { r1 } else { st.min_r },
        cur_r: r1 + e.push_r,
        unknown_read: st.unknown_read || e.reads,
        unknown_write: st.unknown_write || e.writes,
        pure: st.pure && e.pure,
        side_effects: st.side_effects || e.side_effects,
    }
}

/// The depth scan of a sequence; `None` if it holds an instruction without an effect.
pub open spec fn depth_scan(s: Seq<(Op, u64)>) -> Option<DepthScan>
    decreases s.len(),
{
    if s.len() == 0 {
        Some(scan_start())
    } else {
        match depth_scan(s.drop_last()) {
            Some(st) => match op_effect(s.last().0) {
                Some(e) => Some(scan_step(st, e)),
                None => None,
            },
            None => None,
        }
    }
}

proof fn lemma_scan_none_extends(s: Seq<(Op, u64)>, j: int)
    requires
        0 <= j <= s.len(),
        depth_scan(s.take(j)) is None,
    ensures
        depth_scan(s) is None,
    decreases s.len(),
{
    if j == s.len() {
        assert(s.take(j) =~= s);
    } else {
        assert(s.drop_last().take(j) =~= s.take(j));
        lemma_scan_none_extends(s.drop_last(), j);
    }
}

// ---------------------------------------------------------------------------
// Second pass: symbolic execution of the data stack.

/// The symbolic data stack, the exactly known addresses that are read or
/// written, and whether some address is not known.
pub struct SymState {
    pub stack: Seq<Sym>,
    pub addrs: Set<i64>,
    pub unknown_addr: bool,
}

pub open spec fn sym_pop_n(st: SymState, n: nat, push: nat) -> Option<SymState> {
    if st.stack.len() >= n {
        Some(
            SymState {
                stack: st.stack.take(st.stack.len() - n) + Seq::new(push, |_i: int| Sym::Unknown),
                ..st
            },
        )
    } else {
        None
    }
}

pub open spec fn note_addr(st: SymState, a: Sym) -> SymState {
    match a {
        Sym::Literal(x) => SymState { addrs: st.addrs.insert(x), ..st },
        Sym::Unknown => SymState { unknown_addr: true, ..st },
    }
}

/// Symbolic execution of one instruction.
pub open spec fn sym_step(st: SymState, op: Op, data: u64) -> Option<SymState> {
    let s = st.stack;
    let n = s.len();
    match op {
        Op::Push => Some(SymState { stack: s.push(Sym::Literal(data as i64)), ..st }),
        Op::Dup => Some(
            SymState {
                stack: s.push(
                    if n > 0 {
                        s.last()
                    } else {
                        Sym::Unknown
                    },
                ),
                ..st
            },
        ),
        Op::Drop => Some(
            SymState {
                stack: if n > 0 {
                    s.drop_last()
                } else {
                    s
                },
                ..st
            },
        ),
        Op::Swap => if n >= 2 {
            Some(SymState { stack: s.take(n - 2).push(s[n - 1]).push(s[n - 2]), ..st })
        } else {
            None
        },
        Op::Over => if n >= 2 {
            Some(
                SymState { stack: s.take(n - 2).push(s[n - 2]).push(s[n - 1]).push(s[n - 2]), ..st },
            )
        } else {
            None
        },
        Op::Add => if n >= 2 {
            let r = match (s[n - 1], s[n - 2]) {
                (Sym::Literal(a), Sym::Literal(b)) => Sym::Literal(
                    vstd::wrapping::i64_specs::wrapping_add(a, b),
                ),
                _ => Sym::Unknown,
            };
            Some(SymState { stack: s.take(n - 2).push(r), ..st })
        } else {
            None
        },
        Op::Fetch => if n >= 1 {
            let st2 = note_addr(st, s[n - 1]);
            Some(SymState { stack: s.drop_last().push(Sym::Unknown), ..st2 })
        } else {
            None
        },
        Op::Store => if n >= 2 {
            let st2 = note_addr(st, s[n - 1]);
            Some(SymState { stack: s.take(n - 2), ..st2 })
        } else {
            None
        },
        _ => match op_effect(op) {
            Some(e) => sym_pop_n(st, e.pop_d as nat, e.push_d as nat),
            None => None,
        },
    }
}

pub open spec fn sym_run(st0: SymState, s: Seq<(Op, u64)>) -> Option<SymState>
    decreases s.len(),
{
    if s.len() == 0 {
        Some(st0)
    } else {
        match sym_run(st0, s.drop_last()) {
            Some(st) => sym_step(st, s.last().0, s.last().1),
            None => None,
        }
    }
}

proof fn lemma_sym_none_extends(st0: SymState, s: Seq<(Op, u64)>, j: int)
    requires
        0 <= j <= s.len(),
        sym_run(st0, s.take(j)) is None,
    ensures
        sym_run(st0, s) is None,
    decreases s.len(),
{
    if j == s.len() {
        assert(s.take(j) =~= s);
    } else {
        assert(s.drop_last().take(j) =~= s.take(j));
        lemma_sym_none_extends(st0, s.drop_last(), j);
    }
}

/// The symbolic state a sequence starts from: as many unknown values as the
/// sequence consumes below its starting depth.
pub open spec fn sym_start(sc: DepthScan) -> SymState {
    SymState { stack: Seq::new((-sc.min_d) as nat, |_i: int| Sym::Unknown), addrs: Set::empty(), unknown_addr: false }
}

/// Both passes over a sequence.
pub open spec fn analysis(s: Seq<(Op, u64)>) -> Option<(DepthScan, SymState)> {
    match depth_scan(s) {
        Some(sc) => match sym_run(sym_start(sc), s) {
            Some(st) => Some((sc, st)),
            None => None,
        },
        None => None,
    }
}

/// Every exactly known address leaves room for an eight-byte access
/// without overflowing.
pub open spec fn addresses_fit(s: Seq<(Op, u64)>) -> bool {
    match analysis(s) {
        Some(r) => forall|a: i64| #[trigger] r.1.addrs.contains(a) ==> a <= i64::MAX - 8,
        None => true,
    }
}

pub open spec fn contains_op(s: Seq<(Op, u64)>, op: Op) -> bool {
    exists|i: int| 0 <= i < s.len() && #[trigger] s[i].0 == op
}

/// `rs` lists one eight-byte range per address of `addrs`, in strictly
/// increasing order of start address.
pub open spec fn ranges_cover(rs: Seq<AddressRange>, addrs: Set<i64>) -> bool {
    &&& forall|i: int|
        #![trigger rs[i]]
        0 <= i < rs.len() ==> rs[i].end == rs[i].start + 8 && addrs.contains(rs[i].start)
    &&& forall|i: int, j: int| 0 <= i < j < rs.len() ==> #[trigger] rs[i].start < #[trigger] rs[j].start
    &&& forall|a: i64| #[trigger] addrs.contains(a) ==> exists|i: int| 0 <= i < rs.len() && #[trigger] rs[i].start == a
}

/// The ranges a contract records for `addrs`, given whether the sequence
/// holds an instruction of that kind.
pub open spec fn ranges_for(rs: Seq<AddressRange>, addrs: Set<i64>, present: bool) -> bool {
    if present {
        ranges_cover(rs, addrs)
    } else {
        rs.len() == 0
    }
}

pub open spec fn all_literal(s: Seq<Sym>) -> bool {
    forall|i: int| 0 <= i < s.len() ==> #[trigger] s[i] is Literal
}

pub open spec fn literal_value(x: Sym) -> i64 {
    match x {
        Sym::Literal(v) => v,
        Sym::Unknown => 0,
    }
}

/// The constant-folded form of a sequence: when the sequence is pure,
/// consumes nothing below its start, leaves only known values and is longer
/// than the pushes of those values, those pushes replace it.
pub open spec fn folded_form(s: Seq<(Op, u64)>, sc: DepthScan, st: SymState) -> Option<
    Seq<(Op, u64)>,
> {
    if sc.pure && all_literal(st.stack) && sc.min_d == 0 && st.stack.len() < s.len() {
        Some(st.stack.map_values(|x: Sym| (Op::Push, literal_value(x) as u64)))
    } else {
        None
    }
}

/// What the contract of sequence `s` states, given both passes.
pub open spec fn contract_matches(c: ContractView, s: Seq<(Op, u64)>, sc: DepthScan, st: SymState) -> bool {
    &&& c.pop_d == -sc.min_d
    &&& c.push_d == sc.cur_d - sc.min_d
    &&& c.max_d == sc.max_d
    &&& c.pop_r == -sc.min_r
    &&& c.push_r == sc.cur_r - sc.min_r
    &&& c.max_r == 0
    &&& c.pure == sc.pure
    &&& c.side_effects == sc.side_effects
    &&& c.mem.unknown_read == (sc.unknown_read || st.unknown_addr)
    &&& c.mem.unknown_write == (sc.unknown_write || st.unknown_addr)
    &&& ranges_for(c.mem.read_set, st.addrs, contains_op(s, Op::Fetch))
    &&& ranges_for(c.mem.write_set, st.addrs, contains_op(s, Op::Store))
    &&& c.mem.alias_barrier == (access_alias_risk(c.mem) || !sc.pure || st.unknown_addr)
}

/// `c` is the contract that the analysis of `s` computes.
pub open spec fn is_contract_of(c: ContractView, s: Seq<(Op, u64)>) -> bool {
    match analysis(s) {
        Some(r) => contract_matches(c, s, r.0, r.1),
        None => false,
    }
}

/// Two orderly lists of the same addresses are the same list.
pub proof fn lemma_cover_unique(x: Seq<AddressRange>, y: Seq<AddressRange>, addrs: Set<i64>)
    requires
        ranges_cover(x, addrs),
        ranges_cover(y, addrs),
    ensures
        x == y,
    decreases x.len() + y.len(),
{
    if x.len() == 0 && y.len() > 0 {
        assert(addrs.contains(y[0].start));
    } else if y.len() == 0 && x.len() > 0 {
        assert(addrs.contains(x[0].start));
    } else if x.len() > 0 && y.len() > 0 {
        let a = x[0].start;
        assert(addrs.contains(a));
        let j = choose|j: int| 0 <= j < y.len() && #[trigger] y[j].start == a;
        if j > 0 {
            assert(y[0].start < y[j].start);
            assert(addrs.contains(y[0].start));
            let i = choose|i: int| 0 <= i < x.len() && #[trigger] x[i].start == y[0].start;
            if i > 0 {
                assert(x[0].start < x[i].start);
            }
        }
        assert(y[0] == x[0]);
        let rest = addrs.remove(a);
        let x1 = x.drop_first();
        let y1 = y.drop_first();
        assert(ranges_cover(x1, rest)) by {
            assert forall|i: int| 0 <= i < x1.len() implies #[trigger] x1[i].end == x1[i].start + 8 && rest.contains(x1[i].start) by {
                assert(x1[i] == x[i + 1]);
                assert(x[0].start < x[i + 1].start);
            }
            assert forall|i: int, k: int| 0 <= i < k < x1.len() implies #[trigger] x1[i].start < #[trigger] x1[k].start by {
                assert(x1[i] == x[i + 1] && x1[k] == x[k + 1]);
            }
            assert forall|b: i64| #[trigger] rest.contains(b) implies exists|i: int| 0 <= i < x1.len() && #[trigger] x1[i].start == b by {
                assert(addrs.contains(b));
                let i = choose|i: int| 0 <= i < x.len() && #[trigger] x[i].start == b;
                assert(i > 0);
                assert(x1[i - 1].start == b);
            }
        }
        assert(ranges_cover(y1, rest)) by {
            assert forall|i: int| 0 <= i < y1.len() implies #[trigger] y1[i].end == y1[i].start + 8 && rest.contains(y1[i].start) by {
                assert(y1[i] == y[i + 1]);
                assert(y[0].start < y[i + 1].start);
            }
            assert forall|i: int, k: int| 0 <= i < k < y1.len() implies #[trigger] y1[i].start < #[trigger] y1[k].start by {
                assert(y1[i] == y[i + 1] && y1[k] == y[k + 1]);
            }
            assert forall|b: i64| #[trigger] rest.contains(b) implies exists|i: int| 0 <= i < y1.len() && #[trigger] y1[i].start == b by {
                assert(addrs.contains(b));
                let i = choose|i: int| 0 <= i < y.len() && #[trigger] y[i].start == b;
                assert(i > 0);
                assert(y1[i - 1].start == b);
            }
        }
        lemma_cover_unique(x1, y1, rest);
        assert(x =~= y) by {
            assert forall|i: int| 0 <= i < x.len() implies x[i] == y[i] by {
                if i > 0 {
                    assert(x[i] == x1[i - 1]);
                    assert(y[i] == y1[i - 1]);
                }
            }
        }
    }
}

/// A sequence has at most one contract.
pub proof fn lemma_contract_unique(c1: ContractView, c2: ContractView, s: Seq<(Op, u64)>)
    requires
        is_contract_of(c1, s),
        is_contract_of(c2, s),
    ensures
        c1 == c2,
{
    let r = analysis(s)->0;
    if contains_op(s, Op::Fetch) {
        lemma_cover_unique(c1.mem.read_set, c2.mem.read_set, r.1.addrs);
    } else {
        assert(c1.mem.read_set =~= c2.mem.read_set);
    }
    if contains_op(s, Op::Store) {
        lemma_cover_unique(c1.mem.write_set, c2.mem.write_set, r.1.addrs);
    } else {
        assert(c1.mem.write_set =~= c2.mem.write_set);
    }
}

/// The contract of an analyzable sequence.
pub open spec fn contract_view_of(s: Seq<(Op, u64)>) -> ContractView {
    choose|c: ContractView| is_contract_of(c, s)
}

/// The view of an optional instruction vector.
pub open spec fn ops_view(f: Option<Vec<(Op, u64)>>) -> Option<Seq<(Op, u64)>> {
    match f {
        Some(v) => Some(v@),
        None => None,
    }
}

/// Ranges built from distinct addresses and then ordered by start cover
/// exactly those addresses.
proof fn lemma_sorted_ranges_cover(rs: Seq<AddressRange>, addrs: Seq<i64>)
    requires
        addrs.no_duplicates(),
        rs.len() == addrs.len(),
        forall|k: int| 0 <= k < rs.len() ==> #[trigger] rs[k] == (AddressRange { start: addrs[k], end: (addrs[k] + 8) as i64 }),
        forall|k: int| 0 <= k < addrs.len() ==> #[trigger] addrs[k] <= i64::MAX - 8,
    ensures
        ranges_cover(sort_by_start(rs), addrs.to_set()),
{
    broadcast use vstd::seq_lib::group_to_multiset_ensures;
    broadcast use vstd::multiset::group_multiset_axioms;
    let out = sort_by_start(rs);
    lemma_sort_by_start(rs);
    assert(rs.no_duplicates()) by {
        assert forall|i: int, j: int| 0 <= i < rs.len() && 0 <= j < rs.len() && i != j implies rs[i] != rs[j] by {
            assert(addrs[i] != addrs[j]);
        }
    }
    rs.lemma_multiset_has_no_duplicates();
    out.lemma_multiset_has_no_duplicates_conv();
    assert forall|i: int| 0 <= i < out.len() implies #[trigger] out[i].end == out[i].start + 8 && addrs.to_set().contains(out[i].start) by {
        assert(out.to_multiset().count(out[i]) > 0);
        assert(rs.contains(out[i]));
        let k = choose|k: int| 0 <= k < rs.len() && rs[k] == out[i];
        assert(addrs.contains(addrs[k]));
    }
    assert forall|i: int, j: int| 0 <= i < j < out.len() implies #[trigger] out[i].start < #[trigger] out[j].start by {
        assert(out[i].start <= out[j].start);
        assert(out[i] != out[j]);
        assert(out[i].end == out[i].start + 8);
        assert(out[j].end == out[j].start + 8);
    }
    assert forall|a: i64| #[trigger] addrs.to_set().contains(a) implies exists|i: int| 0 <= i < out.len() && #[trigger] out[i].start == a by {
        let k = choose|k: int| 0 <= k < addrs.len() && addrs[k] == a;
        assert(rs[k].start == a);
        assert(rs.to_multiset().count(rs[k]) > 0);
        assert(out.contains(rs[k]));
    }
}

#[verifier::rlimit(40)]
/// Computes the contract of a code sequence by scanning its stack depths and
/// executing it symbolically, and folds it to pushes of constants when its
/// outcome is fully known. `None` when the sequence holds an instruction
/// without a known effect.
pub fn validate_sequence_contract(seq: &[(Op, u64)]) -> (r: Option<(SemanticContract, Option<Vec<(Op, u64)>>)>)
    requires
        seq@.len() * 16 <= isize::MAX,
        addresses_fit(seq@),
    ensures
        r is Some <==> analysis(seq@) is Some,
        r matches Some((c, f)) ==> (c.side_effects <==> exists|i: int| 0 <= i < seq@.len() && #[trigger] reaches_outside(seq@[i].0)),
        r matches Some((c, f)) ==> ({
            let (sc, st) = analysis(seq@)->0;
            &&& contract_matches(c@, seq@, sc, st)
            &&& ops_view(f) == folded_form(seq@, sc, st)
        }),
{
    let n = seq.len();
    // Pass 1: depths.
    let mut min_d: i64 = 0;
    let mut current_d: i64 = 0;
    let mut max_d: i64 = 0;
    let mut min_r: i64 = 0;
    let mut current_r: i64 = 0;
    let mut unknown_read = false;
    let mut unknown_write = false;
    let mut pure = true;
    let mut side_effects = false;
    let mut i: usize = 0;
    while i < n
        invariant
            n == seq@.len(),
            n * 16 <= isize::MAX,
            i <= n,
            depth_scan(seq@.take(i as int)) == Some(DepthScan {
                min_d: min_d as int,
                cur_d: current_d as int,
                max_d: max_d as int,
                min_r: min_r as int,
                cur_r: current_r as int,
                unknown_read,
                unknown_write,
                pure,
                side_effects,
            }),
            -3 * i <= min_d <= 0,
            min_d <= current_d <= 4 * i,
            0 <= max_d <= 4 * i,
            -(i as int) <= min_r <= 0,
            min_r <= current_r <= i,
        decreases n - i,
    {
        let op = seq[i].0;
        proof {
            lemma_effect_bounds(op);
            assert(seq@.take(i + 1).drop_last() =~= seq@.take(i as int));
        }
        let contract = match op.inline_contract() {
            Some(c) => c,
            None => {
                proof {
                    lemma_scan_none_extends(seq@, i + 1);
                }
                return None;
            },
        };
        current_d = current_d - contract.pop_d as i64;
        if current_d < min_d {
            min_d = current_d;
        }
        current_d = current_d + contract.push_d as i64;
        if current_d > max_d {
            max_d = current_d;
        }
        current_r = current_r - contract.pop_r as i64;
        if current_r < min_r {
            min_r = current_r;
        }
        current_r = current_r + contract.push_r as i64;
        unknown_read = unknown_read || contract.mem.unknown_read;
        unknown_write = unknown_write || contract.mem.unknown_write;
        pure = pure && contract.pure;
        side_effects = side_effects || contract.side_effects;
        i = i + 1;
    }
    assert(seq@.take(n as int) =~= seq@);
    let ghost sc = depth_scan(seq@)->0;
    // Pass 2: symbolic execution.
    let mut shadow_d: Vec<Sym> = Vec::new();
    let below: i64 = 0 - min_d;
    let mut k: i64 = 0;
    while k < below
        invariant
            0 <= k <= below,
            shadow_d@ =~= Seq::new(k as nat, |_i: int| Sym::Unknown),
        decreases below - k,
    {
        shadow_d.push(Sym::Unknown);
        k = k + 1;
    }
    let ghost st0 = sym_start(sc);
    assert(sc.min_d == min_d);
    assert(shadow_d@ =~= st0.stack);
    let mut exact_addresses: Vec<i64> = Vec::new();
    let mut unknown_address = false;
    let mut has_fetch = false;
    let mut has_store = false;
    i = 0;
    assert(seq@.take(0) =~= Seq::<(Op, u64)>::empty());
    assert(exact_addresses@.to_set() =~= Set::<i64>::empty());
    while i < n
        invariant
            n == seq@.len(),
            i <= n,
            depth_scan(seq@) == Some(sc),
            st0 == sym_start(sc),
            sym_run(st0, seq@.take(i as int)) == Some(SymState {
                stack: shadow_d@,
                addrs: exact_addresses@.to_set(),
                unknown_addr: unknown_address,
            }),
            exact_addresses@.no_duplicates(),
            has_fetch == contains_op(seq@.take(i as int), Op::Fetch),
            has_store == contains_op(seq@.take(i as int), Op::Store),
        decreases n - i,
    {
        let (op, data) = seq[i];
        let ghost prev = SymState {
            stack: shadow_d@,
            addrs: exact_addresses@.to_set(),
            unknown_addr: unknown_address,
        };
        proof {
            assert(seq@.take(i + 1).drop_last() =~= seq@.take(i as int));
            assert(seq@.take(i + 1).last() == (op, data));
        }
        let mut addr: Option<Sym> = None;
        match op {
            Op::Push => {
                shadow_d.push(Sym::Literal(data as i64));
                assert(shadow_d@ =~= prev.stack.push(Sym::Literal(data as i64)));
            },
            Op::Dup => {
                let v = if shadow_d.len() > 0 {
                    shadow_d[shadow_d.len() - 1]
                } else {
                    Sym::Unknown
                };
                shadow_d.push(v);
            },
            Op::Drop => {
                shadow_d.pop();
            },
            Op::Swap | Op::Over | Op::Add => {
                let a = match shadow_d.pop() {
                    Some(a) => a,
                    None => {
                        proof { lemma_sym_none_extends(st0, seq@, i + 1); }
                        return None;
                    },
                };
                let b = match shadow_d.pop() {
                    Some(b) => b,
                    None => {
                        proof { lemma_sym_none_extends(st0, seq@, i + 1); }
                        return None;
                    },
                };
                let ghost sn = prev.stack.len();
                assert(a == prev.stack[sn - 1]);
                assert(b == prev.stack[sn - 2]);
                assert(shadow_d@ =~= prev.stack.take(sn - 2));
                match op {
                    Op::Swap => {
                        shadow_d.push(a);
                        shadow_d.push(b);
                        assert(shadow_d@ =~= prev.stack.take(sn - 2).push(a).push(b));
                    },
                    Op::Over => {
                        shadow_d.push(b);
                        shadow_d.push(a);
                        shadow_d.push(b);
                        assert(shadow_d@ =~= prev.stack.take(sn - 2).push(b).push(a).push(b));
                    },
                    _ => {
                        match (a, b) {
                            (Sym::Literal(av), Sym::Literal(bv)) => {
                                shadow_d.push(Sym::Literal(av.wrapping_add(bv)));
                            },
                            _ => {
                                shadow_d.push(Sym::Unknown);
                            },
                        }
                    },
                }
            },
            Op::Fetch => {
                let a = match shadow_d.pop() {
                    Some(a) => a,
                    None => {
                        proof { lemma_sym_none_extends(st0, seq@, i + 1); }
                        return None;
                    },
                };
                addr = Some(a);
                shadow_d.push(Sym::Unknown);
                assert(shadow_d@ =~= prev.stack.drop_last().push(Sym::Unknown));
            },
            Op::Store => {
                let a = match shadow_d.pop() {
                    Some(a) => a,
                    None => {
                        proof { lemma_sym_none_extends(st0, seq@, i + 1); }
                        return None;
                    },
                };
                match shadow_d.pop() {
                    Some(_v) => {},
                    None => {
                        proof { lemma_sym_none_extends(st0, seq@, i + 1); }
                        return None;
                    },
                }
                addr = Some(a);
                assert(shadow_d@ =~= prev.stack.take(prev.stack.len() - 2));
            },
            _ => {
                let c = match op.inline_contract() {
                    Some(c) => c,
                    None => {
                        proof { lemma_sym_none_extends(st0, seq@, i + 1); }
                        return None;
                    },
                };
                if shadow_d.len() < c.pop_d {
                    proof { lemma_sym_none_extends(st0, seq@, i + 1); }
                    return None;
                }
                let ghost s0 = shadow_d@;
                let mut p: usize = 0;
                while p < c.pop_d
                    invariant
                        p <= c.pop_d,
                        s0.len() >= c.pop_d,
                        shadow_d@ =~= s0.take(s0.len() - p),
                    decreases c.pop_d - p,
                {
                    shadow_d.pop();
                    p = p + 1;
                }
                let ghost s1 = shadow_d@;
                let mut q: usize = 0;
                while q < c.push_d
                    invariant
                        q <= c.push_d,
                        shadow_d@ =~= s1 + Seq::new(q as nat, |_i: int| Sym::Unknown),
                    decreases c.push_d - q,
                {
                    shadow_d.push(Sym::Unknown);
                    q = q + 1;
                }
            },
        }
        match addr {
            Some(Sym::Literal(x)) => {
                let mut found = false;
                let mut j: usize = 0;
                while j < exact_addresses.len()
                    invariant
                        j <= exact_addresses.len(),
                        found == (exists|w: int| 0 <= w < j && exact_addresses@[w] == x),
                    decreases exact_addresses.len() - j,
                {
                    if exact_addresses[j] == x {
                        found = true;
                    }
                    j = j + 1;
                }
                if !found {
                    let ghost old_addrs = exact_addresses@;
                    exact_addresses.push(x);
                    proof {
                        old_addrs.lemma_push_to_set_commute(x);
                        assert forall|u: int, w: int| 0 <= u < exact_addresses@.len() && 0 <= w < exact_addresses@.len() && u != w implies exact_addresses@[u] != exact_addresses@[w] by {
                            if u < old_addrs.len() && w < old_addrs.len() {
                                assert(old_addrs[u] != old_addrs[w]);
                            }
                        }
                    }
                } else {
                    assert(exact_addresses@.contains(x));
                }
                assert(exact_addresses@.to_set() =~= prev.addrs.insert(x));
            },
            Some(Sym::Unknown) => {
                unknown_address = true;
            },
            None => {},
        }
        proof {
            let t = seq@.take(i + 1);
            assert(contains_op(t, Op::Fetch) == (contains_op(seq@.take(i as int), Op::Fetch) || op == Op::Fetch)) by {
                if op == Op::Fetch { assert(t[i as int].0 == Op::Fetch); }
                if contains_op(seq@.take(i as int), Op::Fetch) {
                    let w = choose|w: int| 0 <= w < i && #[trigger] seq@.take(i as int)[w].0 == Op::Fetch;
                    assert(t[w].0 == Op::Fetch);
                }
                if contains_op(t, Op::Fetch) {
                    let w = choose|w: int| 0 <= w < i + 1 && #[trigger] t[w].0 == Op::Fetch;
                    if w < i { assert(seq@.take(i as int)[w].0 == Op::Fetch); }
                }
            }
            assert(contains_op(t, Op::Store) == (contains_op(seq@.take(i as int), Op::Store) || op == Op::Store)) by {
                if op == Op::Store { assert(t[i as int].0 == Op::Store); }
                if contains_op(seq@.take(i as int), Op::Store) {
                    let w = choose|w: int| 0 <= w < i && #[trigger] seq@.take(i as int)[w].0 == Op::Store;
                    assert(t[w].0 == Op::Store);
                }
                if contains_op(t, Op::Store) {
                    let w = choose|w: int| 0 <= w < i + 1 && #[trigger] t[w].0 == Op::Store;
                    if w < i { assert(seq@.take(i as int)[w].0 == Op::Store); }
                }
            }
        }
        if op == Op::Fetch {
            has_fetch = true;
        }
        if op == Op::Store {
            has_store = true;
        }
        i = i + 1;
    }
    let ghost st = sym_run(st0, seq@)->0;
    assert(analysis(seq@) == Some((sc, st)));
    // Address ranges.
    let mut read_ranges: Vec<AddressRange> = Vec::new();
    let mut write_ranges: Vec<AddressRange> = Vec::new();
    let ghost ranges = Seq::new(exact_addresses@.len(), |k: int| AddressRange { start: exact_addresses@[k], end: (exact_addresses@[k] + 8) as i64 });
    let mut j: usize = 0;
    while j < exact_addresses.len()
        invariant
            j <= exact_addresses.len(),
            exact_addresses@.to_set() == st.addrs,
            addresses_fit(seq@),
            analysis(seq@) == Some((sc, st)),
            ranges == Seq::new(exact_addresses@.len(), |k: int| AddressRange { start: exact_addresses@[k], end: (exact_addresses@[k] + 8) as i64 }),
            read_ranges@ == (if has_fetch { ranges.take(j as int) } else { Seq::empty() }),
            write_ranges@ == (if has_store { ranges.take(j as int) } else { Seq::empty() }),
        decreases exact_addresses.len() - j,
    {
        let a = exact_addresses[j];
        assert(exact_addresses@.contains(a));
        assert(st.addrs.contains(a));
        assert(analysis(seq@).unwrap().1 == st);
        assert(analysis(seq@).unwrap().1.addrs.contains(a));
        assert(a <= i64::MAX - 8);
        assert(ranges.take(j + 1) =~= ranges.take(j as int).push(AddressRange { start: a, end: (a + 8) as i64 }));
        if has_fetch {
            read_ranges.push(AddressRange { start: a, end: a + 8 });
        }
        if has_store {
            write_ranges.push(AddressRange { start: a, end: a + 8 });
        }
        j = j + 1;
    }
    proof {
        assert(ranges.take(j as int) =~= ranges);
        assert forall|k: int| 0 <= k < exact_addresses@.len() implies #[trigger] exact_addresses@[k] <= i64::MAX - 8 by {
            assert(exact_addresses@.contains(exact_addresses@[k]));
            assert(analysis(seq@).unwrap().1.addrs.contains(exact_addresses@[k]));
        }
        lemma_sorted_ranges_cover(ranges, exact_addresses@);
        assert(sort_by_start(Seq::<AddressRange>::empty()) =~= Seq::<AddressRange>::empty());
    }
    let mut mem = MemoryAccess {
        read_set: read_ranges,
        write_set: write_ranges,
        unknown_read: unknown_read || unknown_address,
        unknown_write: unknown_write || unknown_address,
        alias_barrier: false,
    };
    mem.canonicalize();
    assert(ranges_for(mem@.read_set, st.addrs, has_fetch));
    assert(ranges_for(mem@.write_set, st.addrs, has_store));
    let risk = mem.has_alias_risk();
    let ghost before_barrier = mem@;
    if risk || !pure || unknown_address {
        mem.alias_barrier = true;
    }
    assert(access_alias_risk(mem@) == access_alias_risk(before_barrier));
    let contract = SemanticContract {
        pop_d: (0 - min_d) as usize,
        push_d: (current_d - min_d) as usize,
        max_d: if max_d > 0 { max_d as usize } else { 0 },
        pop_r: (0 - min_r) as usize,
        push_r: (current_r - min_r) as usize,
        max_r: 0,
        mem,
        pure,
        side_effects,
    };
    assert(seq@.take(n as int) =~= seq@);
    assert(has_fetch == contains_op(seq@, Op::Fetch));
    assert(has_store == contains_op(seq@, Op::Store));
    assert(contract@.mem.alias_barrier == (access_alias_risk(contract@.mem) || !sc.pure || st.unknown_addr));
    assert(contract@.pop_d == -sc.min_d && contract@.push_d == sc.cur_d - sc.min_d);
    assert(contract@.max_d == sc.max_d && contract@.pop_r == -sc.min_r && contract@.push_r == sc.cur_r - sc.min_r);
    assert(contract_matches(contract@, seq@, sc, st));
    // Constant folding.
    let mut fully_determined = true;
    let mut m: usize = 0;
    while m < shadow_d.len()
        invariant
            m <= shadow_d.len(),
            fully_determined == (forall|w: int| 0 <= w < m ==> #[trigger] shadow_d@[w] is Literal),
        decreases shadow_d.len() - m,
    {
        if let Sym::Unknown = shadow_d[m] {
            fully_determined = false;
        }
        m = m + 1;
    }
    assert(fully_determined == all_literal(shadow_d@));
    let mut folded_seq: Option<Vec<(Op, u64)>> = None;
    if pure && fully_determined && min_d == 0 {
        let mut new_seq: Vec<(Op, u64)> = Vec::new();
        let mut m: usize = 0;
        while m < shadow_d.len()
            invariant
                m <= shadow_d.len(),
                all_literal(shadow_d@),
                new_seq@ =~= shadow_d@.take(m as int).map_values(|x: Sym| (Op::Push, literal_value(x) as u64)),
            decreases shadow_d.len() - m,
        {
            if let Sym::Literal(val) = shadow_d[m] {
                new_seq.push((Op::Push, val as u64));
            }
            m = m + 1;
        }
        assert(shadow_d@.take(m as int) =~= shadow_d@);
        if new_seq.len() < seq.len() {
            folded_seq = Some(new_seq);
        }
    }
    proof {
        lemma_scan_side_effects(seq@);
    }
    Some((contract, folded_seq))
}

#[verifier::rlimit(60)]
/// What an instruction's effect says of the stacks holds of running it:
/// whenever a step of an instruction the optimizer understands completes
/// normally, the data stack has lost `pop_d` values and gained `push_d`, and
/// the return stack has lost `pop_r` and gained `push_r`; a pure
/// instruction leaves the system (memory included) and the float stack as
/// they were.
pub proof fn lemma_effect_matches_step(v: VmView, s: SysView, env: Env, op: Op, data: u64)
    requires
        op_effect(op) is Some,
        step_spec(v, s, env, op, data).res == Ok::<ExecutionStatus, ForthError>(ExecutionStatus::Done),
    ensures
        v.data.len() >= op_effect(op)->0.pop_d,
        v.r.len() >= op_effect(op)->0.pop_r,
        step_spec(v, s, env, op, data).vm.data.len() == v.data.len() - op_effect(op)->0.pop_d + op_effect(op)->0.push_d,
        step_spec(v, s, env, op, data).vm.r.len() == v.r.len() - op_effect(op)->0.pop_r + op_effect(op)->0.push_r,
        op_effect(op)->0.pure ==> step_spec(v, s, env, op, data).sys == s
            && step_spec(v, s, env, op, data).vm.f == v.f,
{
    match op {
        Op::Noop => {},
        Op::Stop => {},
        Op::Push => {},
        Op::PushF => {},
        Op::Drop => {},
        Op::Dup => {},
        Op::Square => {},
        Op::Inc => {},
        Op::Dec => {},
        Op::IsZero => {},
        Op::Swap => {},
        Op::Over => {},
        Op::Nip => {},
        Op::Drop2 => {},
        Op::Dup2 => {},
        Op::Tuck => {},
        Op::Add => {},
        Op::Sub => {},
        Op::Mul => {},
        Op::Div => {},
        Op::Rot => {},
        Op::Fetch => {},
        Op::Store => {},
        Op::ToR => {},
        Op::FromR => {},
        Op::RFetch => {},
        Op::Dot => {},
        Op::Emit => {},
        Op::Cr => {},
        Op::Throw => {},
        Op::Eq => {},
        Op::Lt => {},
        Op::Gt => {},
        _ => {},
    }
}

/// The instructions whose effect reaches past the stacks: those that write
/// output (`.`, `EMIT`, `CR`), store to memory (`!`), throw, or stop the
/// program.
pub open spec fn reaches_outside(op: Op) -> bool {
    op == Op::Dot || op == Op::Emit || op == Op::Cr || op == Op::Store || op == Op::Throw || op == Op::Stop
}

/// An instruction the optimizer understands is marked as having side
/// effects exactly when it writes output, stores, throws or stops.
pub proof fn lemma_side_effect_ops(op: Op)
    requires
        op_effect(op) is Some,
    ensures
        op_effect(op)->0.side_effects <==> reaches_outside(op),
{
}

/// An instruction without side effects is invisible outside the machine:
/// whenever its step succeeds it reports `Done` and leaves output, memory,
/// the allocation pointer and the code as they were.
pub proof fn lemma_quiet_step(v: VmView, s: SysView, env: Env, op: Op, data: u64)
    requires
        op_effect(op) is Some,
        !op_effect(op)->0.side_effects,
        step_spec(v, s, env, op, data).res is Ok,
    ensures
        step_spec(v, s, env, op, data).res == Ok::<ExecutionStatus, ForthError>(ExecutionStatus::Done),
        step_spec(v, s, env, op, data).sys.out == s.out,
        step_spec(v, s, env, op, data).sys.mem == s.mem,
        step_spec(v, s, env, op, data).sys.here == s.here,
        step_spec(v, s, env, op, data).sys.ops == s.ops,
{
}

/// A sequence's scan has side effects exactly when one of its
/// instructions reaches outside the machine.
proof fn lemma_scan_side_effects(s: Seq<(Op, u64)>)
    requires
        depth_scan(s) is Some,
    ensures
        depth_scan(s)->0.side_effects <==> exists|i: int| 0 <= i < s.len() && #[trigger] reaches_outside(s[i].0),
    decreases s.len(),
{
    if s.len() > 0 {
        let p = s.drop_last();
        lemma_scan_side_effects(p);
        lemma_side_effect_ops(s.last().0);
        if exists|i: int| 0 <= i < p.len() && #[trigger] reaches_outside(p[i].0) {
            let i = choose|i: int| 0 <= i < p.len() && #[trigger] reaches_outside(p[i].0);
            assert(s[i] == p[i]);
        }
        if exists|i: int| 0 <= i < s.len() && #[trigger] reaches_outside(s[i].0) {
            let i = choose|i: int| 0 <= i < s.len() && #[trigger] reaches_outside(s[i].0);
            if i < p.len() {
                assert(p[i] == s[i]);
            }
        }
    }
}

/// Of the instructions the optimizer understands, `@` is the one marked as
/// reading memory and `!` the one marked as writing it; an instruction not
/// marked as writing leaves memory as it was whenever its step succeeds.
pub proof fn lemma_memory_ops(v: VmView, s: SysView, env: Env, op: Op, data: u64)
    requires
        op_effect(op) is Some,
    ensures
        op_effect(op)->0.reads <==> op == Op::Fetch,
        op_effect(op)->0.writes <==> op == Op::Store,
        !op_effect(op)->0.writes && step_spec(v, s, env, op, data).res is Ok
            ==> step_spec(v, s, env, op, data).sys.mem == s.mem,
{
}

} // verus!
