use crate::common::types::{Op, Sym, ExecutionStatus};
use crate::common::error::ForthError;
use crate::optimizer::contract::{
    op_effect, sym_step, sym_run, sym_start, SymState, literal_value, depth_scan, scan_step, analysis,
    folded_form,
};
use crate::vm::semantics::{VmView, SysView, Env, step_spec, with_data, is_data_op, arity, results};
use crate::vm::state::D_STACK_LIMIT;
use vstd::prelude::*;

verus! {

/// The data stack `d` is `base` with values on top that agree with the
/// symbolic stack `st` wherever `st` holds a known value.
pub open spec fn agrees(d: Seq<i64>, base: Seq<i64>, st: Seq<Sym>) -> bool {
    &&& d.len() == base.len() + st.len()
    &&& d.take(base.len() as int) == base
    &&& forall|i: int| 0 <= i < st.len() && (#[trigger] st[i]) is Literal
        ==> d[base.len() + i] == literal_value(st[i])
}

/// Replacing the top `k` values on both sides by values that agree keeps
/// the two stacks in agreement.
proof fn lemma_agrees_replace(d: Seq<i64>, base: Seq<i64>, st: Seq<Sym>, k: int, r: Seq<i64>, u: Seq<Sym>)
    requires
        agrees(d, base, st),
        0 <= k <= st.len(),
        u.len() == r.len(),
        forall|i: int| 0 <= i < u.len() && (#[trigger] u[i]) is Literal ==> r[i] == literal_value(u[i]),
    ensures
        agrees(d.take(d.len() - k) + r, base, st.take(st.len() - k) + u),
{
    let d2 = d.take(d.len() - k) + r;
    let s2 = st.take(st.len() - k) + u;
    assert(d2.take(base.len() as int) =~= d.take(base.len() as int));
    assert forall|i: int| 0 <= i < s2.len() && (#[trigger] s2[i]) is Literal
        implies d2[base.len() + i] == literal_value(s2[i]) by {
        if i < st.len() - k {
            assert(s2[i] == st[i]);
            assert(d2[base.len() + i] == d[base.len() + i]);
        } else {
            assert(s2[i] == u[i - (st.len() - k)]);
            assert(d2[base.len() + i] == r[i - (st.len() - k)]);
        }
    }
}

/// One step of a pure instruction that completes normally, taken where the
/// symbolic stack has every value the instruction takes, keeps the data
/// stack in agreement with the symbolic stack, and changes nothing else.
#[verifier::rlimit(80)]
proof fn lemma_pure_step(v: VmView, sy: SysView, env: Env, op: Op, data: u64, base: Seq<i64>, st: SymState)
    requires
        op_effect(op) is Some,
        op_effect(op)->0.pure,
        st.stack.len() >= op_effect(op)->0.pop_d,
        agrees(v.data, base, st.stack),
        v.data.len() <= D_STACK_LIMIT,
        step_spec(v, sy, env, op, data).res == Ok::<ExecutionStatus, ForthError>(ExecutionStatus::Done),
    ensures
        sym_step(st, op, data) is Some,
        agrees(step_spec(v, sy, env, op, data).vm.data, base, sym_step(st, op, data)->0.stack),
        sym_step(st, op, data)->0.stack.len() == st.stack.len() - op_effect(op)->0.pop_d + op_effect(op)->0.push_d,
        step_spec(v, sy, env, op, data).vm == with_data(v, step_spec(v, sy, env, op, data).vm.data),
        step_spec(v, sy, env, op, data).sys == sy,
        step_spec(v, sy, env, op, data).vm.data.len() <= D_STACK_LIMIT,
{
    let d = v.data;
    let s = st.stack;
    let n = s.len() as int;
    let len = d.len() as int;
    let o = step_spec(v, sy, env, op, data);
    let e = op_effect(op)->0;
    assert(len >= n);
    match op {
        Op::Push => {
            let x = Sym::Literal(data as i64);
            lemma_agrees_replace(d, base, s, 0, seq![data as i64], seq![x]);
            assert(d.take(len) =~= d);
            assert(s.take(n) =~= s);
            assert(s.push(x) =~= s.take(n) + seq![x]);
            assert(o.vm.data =~= d.take(len) + seq![data as i64]);
        },
        Op::Noop => {
            lemma_agrees_replace(d, base, s, 0, Seq::<i64>::empty(), Seq::<Sym>::empty());
            assert(d.take(len) + Seq::<i64>::empty() =~= d);
            assert(s.take(n) + Seq::<Sym>::empty() =~= s);
            assert(s.take(n) + Seq::new(0, |_i: int| Sym::Unknown) =~= s);
            assert(o.vm =~= v);
        },
        Op::Dup => {
            let a = d[len - 1];
            assert(s[n - 1] is Literal ==> a == literal_value(s[n - 1])) by {
                assert(base.len() + (n - 1) == len - 1);
            }
            lemma_agrees_replace(d, base, s, 1, seq![a, a], seq![s.last(), s.last()]);
            assert(s.push(s.last()) =~= s.take(n - 1) + seq![s.last(), s.last()]);
            assert(o.vm.data =~= d.take(len - 1) + seq![a, a]);
        },
        Op::Drop => {
            lemma_agrees_replace(d, base, s, 1, Seq::<i64>::empty(), Seq::<Sym>::empty());
            assert(s.drop_last() =~= s.take(n - 1) + Seq::<Sym>::empty());
            assert(o.vm.data =~= d.take(len - 1) + Seq::<i64>::empty());
        },
        Op::Swap => {
            let a = d[len - 1];
            let b = d[len - 2];
            assert(base.len() + (n - 1) == len - 1 && base.len() + (n - 2) == len - 2);
            lemma_agrees_replace(d, base, s, 2, seq![a, b], seq![s[n - 1], s[n - 2]]);
            assert(s.take(n - 2).push(s[n - 1]).push(s[n - 2]) =~= s.take(n - 2) + seq![s[n - 1], s[n - 2]]);
            assert(o.vm.data =~= d.take(len - 2) + seq![a, b]);
        },
        Op::Over => {
            let a = d[len - 1];
            let b = d[len - 2];
            assert(base.len() + (n - 1) == len - 1 && base.len() + (n - 2) == len - 2);
            lemma_agrees_replace(d, base, s, 2, seq![b, a, b], seq![s[n - 2], s[n - 1], s[n - 2]]);
            assert(s.take(n - 2).push(s[n - 2]).push(s[n - 1]).push(s[n - 2]) =~= s.take(n - 2) + seq![s[n - 2], s[n - 1], s[n - 2]]);
            assert(o.vm.data =~= d.take(len - 2) + seq![b, a, b]);
        },
        Op::Add => {
            let a = d[len - 1];
            let b = d[len - 2];
            assert(base.len() + (n - 1) == len - 1 && base.len() + (n - 2) == len - 2);
            let r = match (s[n - 1], s[n - 2]) {
                (Sym::Literal(x), Sym::Literal(y)) => Sym::Literal(vstd::wrapping::i64_specs::wrapping_add(x, y)),
                _ => Sym::Unknown,
            };
            assert(r is Literal ==> b.wrapping_add(a) == literal_value(r));
            lemma_agrees_replace(d, base, s, 2, seq![b.wrapping_add(a)], seq![r]);
            assert(s.take(n - 2).push(r) =~= s.take(n - 2) + seq![r]);
            assert(o.vm.data =~= d.take(len - 2) + seq![b.wrapping_add(a)]);
        },
        Op::Div => {
            let k = 2int;
            let u = Seq::new(e.push_d as nat, |_i: int| Sym::Unknown);
            let r = seq![crate::vm::semantics::wrap_div(d[len - 2], d[len - 1])];
            lemma_agrees_replace(d, base, s, k, r, u);
            assert(o.vm.data =~= d.take(len - k) + r);
            assert(s.take(n - k) + u =~= s.take(n - k) + Seq::new(e.push_d as nat, |_i: int| Sym::Unknown));
        },
        _ => {
            let k = e.pop_d as int;
            let u = Seq::new(e.push_d as nat, |_i: int| Sym::Unknown);
            assert(is_data_op(op) && arity(op) == k);
            let r = results(op, data, d.len(), d.subrange(len - k, len));
            assert(r.len() == e.push_d);
            lemma_agrees_replace(d, base, s, k, r, u);
            assert(o.vm.data =~= d.take(len - k) + r);
        },
    }
}

/// Where a run of instructions ends: the machine and the system.
pub struct Ran {
    pub vm: VmView,
    pub sys: SysView,
}

/// The folded form of a sequence, when it has one.
pub open spec fn folded_seq(s: Seq<(Op, u64)>) -> Option<Seq<(Op, u64)>> {
    match analysis(s) {
        Some(a) => folded_form(s, a.0, a.1),
        None => None,
    }
}

/// Runs the instructions of `s` in turn from `v` and `sy`; `None` as soon
/// as one of them does not complete normally.
pub open spec fn run_ops(v: VmView, sy: SysView, env: Env, s: Seq<(Op, u64)>) -> Option<Ran>
    decreases s.len(),
{
    if s.len() == 0 {
        Some(Ran { vm: v, sys: sy })
    } else {
        match run_ops(v, sy, env, s.drop_last()) {
            Some(p) => {
                let o = step_spec(p.vm, p.sys, env, s.last().0, s.last().1);
                if o.res == Ok::<ExecutionStatus, ForthError>(ExecutionStatus::Done) {
                    Some(Ran { vm: o.vm, sys: o.sys })
                } else {
                    None
                }
            },
            None => None,
        }
    }
}

/// Running a pure sequence that never reaches below its starting depth
/// leaves the stack it started on in place, with values on top that agree
/// with its symbolic execution, and changes nothing else.
proof fn lemma_pure_run(v: VmView, sy: SysView, env: Env, s: Seq<(Op, u64)>, st0: SymState)
    requires
        depth_scan(s) is Some,
        depth_scan(s)->0.min_d >= 0,
        depth_scan(s)->0.pure,
        run_ops(v, sy, env, s) is Some,
        v.data.len() <= D_STACK_LIMIT,
        st0.stack.len() == 0,
    ensures
        sym_run(st0, s) is Some,
        sym_run(st0, s)->0.stack.len() == depth_scan(s)->0.cur_d,
        agrees(run_ops(v, sy, env, s)->0.vm.data, v.data, sym_run(st0, s)->0.stack),
        run_ops(v, sy, env, s)->0.vm == with_data(v, run_ops(v, sy, env, s)->0.vm.data),
        run_ops(v, sy, env, s)->0.sys == sy,
        run_ops(v, sy, env, s)->0.vm.data.len() <= D_STACK_LIMIT,
    decreases s.len(),
{
    if s.len() == 0 {
        assert(v.data.take(v.data.len() as int) =~= v.data);
        assert(with_data(v, v.data) =~= v);
    } else {
        let p = s.drop_last();
        let op = s.last().0;
        let data = s.last().1;
        let scp = depth_scan(p)->0;
        let e = op_effect(op)->0;
        assert(depth_scan(s) == Some(scan_step(scp, e)));
        lemma_pure_run(v, sy, env, p, st0);
        let q = run_ops(v, sy, env, p)->0;
        let stp = sym_run(st0, p)->0;
        lemma_pure_step(q.vm, q.sys, env, op, data, v.data, stp);
        let o = step_spec(q.vm, q.sys, env, op, data);
        assert(o.vm =~= with_data(v, o.vm.data));
    }
}

/// Pushing values one instruction at a time puts them on the stack, in
/// order, when they fit.
proof fn lemma_push_run(v: VmView, sy: SysView, env: Env, vals: Seq<i64>)
    requires
        v.data.len() + vals.len() <= D_STACK_LIMIT,
    ensures
        run_ops(v, sy, env, vals.map_values(|x: i64| (Op::Push, x as u64)))
            == Some(Ran { vm: with_data(v, v.data + vals), sys: sy }),
    decreases vals.len(),
{
    let ps = vals.map_values(|x: i64| (Op::Push, x as u64));
    if vals.len() == 0 {
        assert(v.data + vals =~= v.data);
        assert(with_data(v, v.data + vals) =~= v);
    } else {
        let init = vals.drop_last();
        let x = vals.last();
        assert(ps.drop_last() =~= init.map_values(|x: i64| (Op::Push, x as u64)));
        lemma_push_run(v, sy, env, init);
        let w = with_data(v, v.data + init);
        assert((x as u64) as i64 == x) by (bit_vector);
        let o = step_spec(w, sy, env, Op::Push, x as u64);
        assert(w.data.take(w.data.len() as int) =~= w.data);
        assert(o.vm.data =~= v.data + vals);
        assert(o.vm =~= with_data(v, v.data + vals));
    }
}

/// Constant folding keeps what a sequence does: when every instruction of
/// a sequence that the optimizer folds completes normally, its folded form
/// (the pushes of the values the sequence leaves) ends in exactly the same
/// machine and system state.
pub proof fn lemma_fold_preserves_run(v: VmView, sy: SysView, env: Env, s: Seq<(Op, u64)>)
    requires
        folded_seq(s) is Some,
        run_ops(v, sy, env, s) is Some,
        v.data.len() <= D_STACK_LIMIT,
    ensures
        run_ops(v, sy, env, folded_seq(s)->0) == run_ops(v, sy, env, s),
{
    let a = analysis(s)->0;
    let sc = a.0;
    let st = a.1;
    let st0 = sym_start(sc);
    assert(st0.stack.len() == 0);
    lemma_pure_run(v, sy, env, s, st0);
    let r = run_ops(v, sy, env, s)->0;
    let vals = st.stack.map_values(|x: Sym| literal_value(x));
    assert(r.vm.data =~= v.data + vals) by {
        assert forall|i: int| 0 <= i < r.vm.data.len() implies r.vm.data[i] == (v.data + vals)[i] by {
            if i < v.data.len() {
                assert(r.vm.data.take(v.data.len() as int)[i] == r.vm.data[i]);
            } else {
                let j = i - v.data.len();
                assert(st.stack[j] is Literal);
            }
        }
    }
    let f = folded_form(s, sc, st)->0;
    assert(f =~= vals.map_values(|x: i64| (Op::Push, x as u64)));
    lemma_push_run(v, sy, env, vals);
}

} // verus!
