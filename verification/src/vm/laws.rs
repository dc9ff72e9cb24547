use crate::common::error::ForthError;
use crate::common::types::{Op, ExecutionStatus};
use crate::vm::semantics::{VmView, SysView, Env, step_spec};
use vstd::prelude::*;

verus! {

/// 2 to the 64th: the modulus of 64-bit arithmetic.
pub open spec fn two64() -> int {
    0x1_0000_0000_0000_0000
}

/// The step of `op` from `v` completed normally.
pub open spec fn completed(v: VmView, s: SysView, env: Env, op: Op) -> bool {
    step_spec(v, s, env, op, 0).res == Ok::<ExecutionStatus, ForthError>(ExecutionStatus::Done)
}

/// `MIN` and `MAX` take the top two values and leave one of them: for `MIN`
/// one no greater than either, for `MAX` one no smaller than either; the
/// values below are untouched.
pub proof fn lemma_min_max(v: VmView, s: SysView, env: Env, op: Op)
    requires
        op == Op::Min || op == Op::Max,
        v.data.len() >= 2,
        completed(v, s, env, op),
    ensures
        ({
            let d = v.data;
            let n = d.len() as int;
            let a = d[n - 1];
            let b = d[n - 2];
            let d2 = step_spec(v, s, env, op, 0).vm.data;
            &&& d2.len() == n - 1
            &&& d2.take(n - 2) == d.take(n - 2)
            &&& d2[n - 2] == a || d2[n - 2] == b
            &&& op == Op::Min ==> d2[n - 2] <= a && d2[n - 2] <= b
            &&& op == Op::Max ==> d2[n - 2] >= a && d2[n - 2] >= b
        }),
{
    let d = v.data;
    let n = d.len() as int;
    let d2 = step_spec(v, s, env, op, 0).vm.data;
    assert(d2.take(n - 2) =~= d.take(n - 2));
}

/// `=`, `<` and `>` take the top two values, `b` below `a`, and leave -1
/// (all bits set) when `b` is equal to, less than or greater than `a`
/// respectively, and 0 otherwise; the values below are untouched.
pub proof fn lemma_compare(v: VmView, s: SysView, env: Env, op: Op)
    requires
        op == Op::Eq || op == Op::Lt || op == Op::Gt,
        v.data.len() >= 2,
        completed(v, s, env, op),
    ensures
        ({
            let d = v.data;
            let n = d.len() as int;
            let a = d[n - 1];
            let b = d[n - 2];
            let d2 = step_spec(v, s, env, op, 0).vm.data;
            let holds = if op == Op::Eq { b == a } else if op == Op::Lt { b < a } else { b > a };
            &&& d2.len() == n - 1
            &&& d2.take(n - 2) == d.take(n - 2)
            &&& holds ==> d2[n - 2] == -1
            &&& !holds ==> d2[n - 2] == 0
        }),
{
    let d = v.data;
    let n = d.len() as int;
    let d2 = step_spec(v, s, env, op, 0).vm.data;
    assert(d2.take(n - 2) =~= d.take(n - 2));
}

/// `0=` takes the top value and leaves -1 when it was zero and 0 otherwise.
pub proof fn lemma_is_zero(v: VmView, s: SysView, env: Env)
    requires
        v.data.len() >= 1,
        completed(v, s, env, Op::IsZero),
    ensures
        ({
            let d = v.data;
            let n = d.len() as int;
            let d2 = step_spec(v, s, env, Op::IsZero, 0).vm.data;
            &&& d2.len() == n
            &&& d2.take(n - 1) == d.take(n - 1)
            &&& d[n - 1] == 0 ==> d2[n - 1] == -1
            &&& d[n - 1] != 0 ==> d2[n - 1] == 0
        }),
{
    let d = v.data;
    let n = d.len() as int;
    let d2 = step_spec(v, s, env, Op::IsZero, 0).vm.data;
    assert(d2.take(n - 1) =~= d.take(n - 1));
}

/// `+` and `-` take the top two values, `b` below `a`, and leave `b + a`
/// and `b - a` respectively, up to a multiple of 2^64 (the arithmetic
/// wraps); the values below are untouched.
pub proof fn lemma_add_sub(v: VmView, s: SysView, env: Env, op: Op)
    requires
        op == Op::Add || op == Op::Sub,
        v.data.len() >= 2,
        completed(v, s, env, op),
    ensures
        ({
            let d = v.data;
            let n = d.len() as int;
            let a = d[n - 1];
            let b = d[n - 2];
            let d2 = step_spec(v, s, env, op, 0).vm.data;
            let exact = if op == Op::Add { b + a } else { b - a };
            &&& d2.len() == n - 1
            &&& d2.take(n - 2) == d.take(n - 2)
            &&& (d2[n - 2] - exact) % two64() == 0
        }),
{
    let d = v.data;
    let n = d.len() as int;
    let d2 = step_spec(v, s, env, op, 0).vm.data;
    assert(d2.take(n - 2) =~= d.take(n - 2));
}

/// `1+`, `1-` and `NEGATE` replace the top value `a` by `a + 1`, `a - 1`
/// and `-a` respectively, up to a multiple of 2^64.
pub proof fn lemma_unary_arith(v: VmView, s: SysView, env: Env, op: Op)
    requires
        op == Op::Inc || op == Op::Dec || op == Op::Negate,
        v.data.len() >= 1,
        completed(v, s, env, op),
    ensures
        ({
            let d = v.data;
            let n = d.len() as int;
            let a = d[n - 1];
            let d2 = step_spec(v, s, env, op, 0).vm.data;
            let exact = if op == Op::Inc { a + 1 } else if op == Op::Dec { a - 1 } else { -a };
            &&& d2.len() == n
            &&& d2.take(n - 1) == d.take(n - 1)
            &&& (d2[n - 1] - exact) % two64() == 0
        }),
{
    let d = v.data;
    let n = d.len() as int;
    let d2 = step_spec(v, s, env, op, 0).vm.data;
    assert(d2.take(n - 1) =~= d.take(n - 1));
}

/// `ABS` replaces the top value by a value that is not negative and is
/// the value or its negation.
pub proof fn lemma_abs(v: VmView, s: SysView, env: Env)
    requires
        v.data.len() >= 1,
        v.data.last() != i64::MIN,
        completed(v, s, env, Op::Abs),
    ensures
        ({
            let d = v.data;
            let n = d.len() as int;
            let a = d[n - 1];
            let d2 = step_spec(v, s, env, Op::Abs, 0).vm.data;
            &&& d2.len() == n
            &&& d2.take(n - 1) == d.take(n - 1)
            &&& d2[n - 1] >= 0
            &&& d2[n - 1] == a || d2[n - 1] == -a
        }),
{
    let d = v.data;
    let n = d.len() as int;
    let d2 = step_spec(v, s, env, Op::Abs, 0).vm.data;
    assert(d2.take(n - 1) =~= d.take(n - 1));
}

/// The stack shuffles, with `a` on top, `b` below it and `c` below that:
/// `DUP` a a, `DROP` (nothing), `SWAP` a b, `OVER` b a b, `NIP` a,
/// `TUCK` a b a, `ROT` b a c, `2DUP` b a b a, `2DROP` (nothing); the values
/// below those they take are untouched.
pub proof fn lemma_shuffles(v: VmView, s: SysView, env: Env, op: Op)
    requires
        v.data.len() >= 3,
        completed(v, s, env, op),
    ensures
        ({
            let d = v.data;
            let n = d.len() as int;
            let a = d[n - 1];
            let b = d[n - 2];
            let c = d[n - 3];
            let d2 = step_spec(v, s, env, op, 0).vm.data;
            &&& op == Op::Dup ==> d2 == d.push(a)
            &&& op == Op::Drop ==> d2 == d.take(n - 1)
            &&& op == Op::Swap ==> d2 == d.take(n - 2).push(a).push(b)
            &&& op == Op::Over ==> d2 == d.push(b)
            &&& op == Op::Nip ==> d2 == d.take(n - 2).push(a)
            &&& op == Op::Tuck ==> d2 == d.take(n - 2).push(a).push(b).push(a)
            &&& op == Op::Rot ==> d2 == d.take(n - 3).push(b).push(a).push(c)
            &&& op == Op::Dup2 ==> d2 == d.push(b).push(a)
            &&& op == Op::Drop2 ==> d2 == d.take(n - 2)
        }),
{
    let d = v.data;
    let n = d.len() as int;
    let a = d[n - 1];
    let b = d[n - 2];
    let c = d[n - 3];
    let d2 = step_spec(v, s, env, op, 0).vm.data;
    if op == Op::Dup {
        assert(d2 =~= d.push(a));
    } else if op == Op::Drop {
        assert(d2 =~= d.take(n - 1));
    } else if op == Op::Swap {
        assert(d2 =~= d.take(n - 2).push(a).push(b));
    } else if op == Op::Over {
        assert(d2 =~= d.push(b));
    } else if op == Op::Nip {
        assert(d2 =~= d.take(n - 2).push(a));
    } else if op == Op::Tuck {
        assert(d2 =~= d.take(n - 2).push(a).push(b).push(a));
    } else if op == Op::Rot {
        assert(d2 =~= d.take(n - 3).push(b).push(a).push(c));
    } else if op == Op::Dup2 {
        assert(d2 =~= d.push(b).push(a));
    } else if op == Op::Drop2 {
        assert(d2 =~= d.take(n - 2));
    }
}

/// `AND`, `OR` and `XOR` take the top two values, `b` below `a`: `AND`
/// leaves exactly the bits set in both, `OR` those set in either, and `XOR`
/// a value that gives back `b` when combined with `a` again.
pub proof fn lemma_bitwise(v: VmView, s: SysView, env: Env, op: Op)
    requires
        op == Op::And || op == Op::Or || op == Op::Xor,
        v.data.len() >= 2,
        completed(v, s, env, op),
    ensures
        ({
            let d = v.data;
            let n = d.len() as int;
            let a = d[n - 1];
            let b = d[n - 2];
            let d2 = step_spec(v, s, env, op, 0).vm.data;
            &&& op == Op::And ==> d2.len() == n - 1 && d2.take(n - 2) == d.take(n - 2)
                && d2[n - 2] & a == d2[n - 2] && d2[n - 2] & b == d2[n - 2]
                && (a & b) & !d2[n - 2] == 0
            &&& op == Op::Or ==> d2.len() == n - 1 && d2.take(n - 2) == d.take(n - 2)
                && d2[n - 2] | a == d2[n - 2] && d2[n - 2] | b == d2[n - 2]
                && d2[n - 2] & !(a | b) == 0
            &&& op == Op::Xor ==> d2.len() == n - 1 && d2.take(n - 2) == d.take(n - 2)
                && d2[n - 2] ^ a == b
        }),
{
    let d = v.data;
    let n = d.len() as int;
    let a = d[n - 1];
    let b = d[n - 2];
    let d2 = step_spec(v, s, env, op, 0).vm.data;
    {
        assert(d2.take(n - 2) =~= d.take(n - 2));
        let r = d2[n - 2];
        if op == Op::And {
            assert(r == b & a);
            assert(r & a == r && r & b == r && (a & b) & !r == 0) by (bit_vector)
                requires
                    r == b & a,
            ;
        } else if op == Op::Or {
            assert(r == b | a);
            assert(r | a == r && r | b == r && r & !(a | b) == 0) by (bit_vector)
                requires
                    r == b | a,
            ;
        } else {
            assert(r == b ^ a);
            assert(r ^ a == b) by (bit_vector)
                requires
                    r == b ^ a,
            ;
        }
    }
}

} // verus!
