use crate::common::types::Op;
use crate::jit::emit::{Emitted, op_piece};
use vstd::prelude::*;

verus! {

// A reference model of the few x86-64 register instructions that the
// emitted code of the binary operations computes with, decoded from their
// bytes as the Intel manual encodes them. It lets the laws below say what
// the emitted bytes compute, independently of how the emitter builds them.

/// 2 to the 64th.
pub open spec fn m64() -> int {
    0x1_0000_0000_0000_0000
}

/// The 64-bit register pattern of the integer `x` (two's complement).
pub open spec fn rep(x: int) -> int {
    x % m64()
}

/// The signed value of a 64-bit register pattern.
pub open spec fn signed(x: int) -> int {
    if x < 0x8000_0000_0000_0000 {
        x
    } else {
        x - m64()
    }
}

/// The general registers `rax`, `rcx`, `rdx`, `rbx`, `rsp`, `rbp`, `rsi`,
/// `rdi` (as patterns in `0..2^64`), and the two operands of the last
/// compare.
pub struct Regs {
    pub r: Seq<int>,
    pub left: int,
    pub right: int,
}

/// The two register fields of a ModRM byte.
pub struct RegPair {
    pub reg: int,
    pub rm: int,
}

/// Register `i` set to `x`.
pub open spec fn set(st: Regs, i: int, x: int) -> Regs {
    Regs { r: st.r.update(i, x), ..st }
}

/// The two register fields `(reg, r/m)` of a ModRM byte that names two
/// registers (mod = 3).
pub open spec fn two_regs(m: u8) -> Option<RegPair> {
    if m >= 0xC0 {
        Some(RegPair { reg: ((m - 0xC0) / 8) as int, rm: ((m - 0xC0) % 8) as int })
    } else {
        None
    }
}

/// Whether condition code `cc` holds after `cmp x, y` (flags of `x - y`):
/// below, above-or-equal, equal, not-equal, below-or-equal, above
/// (unsigned); less, greater-or-equal, less-or-equal, greater (signed).
pub open spec fn cond(cc: int, x: int, y: int) -> Option<bool> {
    if cc == 2 {
        Some(x < y)
    } else if cc == 3 {
        Some(x >= y)
    } else if cc == 4 {
        Some(x == y)
    } else if cc == 5 {
        Some(x != y)
    } else if cc == 6 {
        Some(x <= y)
    } else if cc == 7 {
        Some(x > y)
    } else if cc == 12 {
        Some(signed(x) < signed(y))
    } else if cc == 13 {
        Some(signed(x) >= signed(y))
    } else if cc == 14 {
        Some(signed(x) <= signed(y))
    } else if cc == 15 {
        Some(signed(x) > signed(y))
    } else {
        None
    }
}

/// An instruction run: the registers after it and its length in bytes.
pub struct Stepped {
    pub st: Regs,
    pub len: int,
}

/// Decodes the instruction at the start of `c` and runs it: the registers
/// after it and its length in bytes; `None` for anything outside the
/// modelled forms (`add`, `sub`, `mov`, `cmp` and `neg` between 64-bit
/// registers, `imul r64, r/m64`, `movzx r64, r/m8`, `setcc r/m8`).
pub open spec fn step(st: Regs, c: Seq<u8>) -> Option<Stepped> {
    let r = st.r;
    if c.len() >= 3 && c[0] == 0x48 && two_regs(c[2]) is Some {
        let g = two_regs(c[2])->0.reg;
        let m = two_regs(c[2])->0.rm;
        if c[1] == 0x01 {
            Some(Stepped { st: set(st, m, rep(r[m] + r[g])), len: 3 })
        } else if c[1] == 0x29 {
            Some(Stepped { st: set(st, m, rep(r[m] - r[g])), len: 3 })
        } else if c[1] == 0x89 {
            Some(Stepped { st: set(st, m, r[g]), len: 3 })
        } else if c[1] == 0x39 {
            Some(Stepped { st: Regs { left: r[m], right: r[g], ..st }, len: 3 })
        } else if c[1] == 0xF7 && g == 3 {
            Some(Stepped { st: set(st, m, rep(0 - r[m])), len: 3 })
        } else {
            None
        }
    } else if c.len() >= 4 && c[0] == 0x48 && c[1] == 0x0F && two_regs(c[3]) is Some {
        let g = two_regs(c[3])->0.reg;
        let m = two_regs(c[3])->0.rm;
        if c[2] == 0xAF {
            Some(Stepped { st: set(st, g, rep(r[g] * r[m])), len: 4 })
        } else if c[2] == 0xB6 && m < 4 {
            Some(Stepped { st: set(st, g, r[m] % 256), len: 4 })
        } else {
            None
        }
    } else if c.len() >= 3 && c[0] == 0x0F && 0x90 <= c[1] <= 0x9F && two_regs(c[2]) is Some
        && two_regs(c[2])->0.reg == 0 && two_regs(c[2])->0.rm < 4 {
        let m = two_regs(c[2])->0.rm;
        match cond(c[1] - 0x90, st.left, st.right) {
            Some(t) => Some(Stepped { st: set(st, m, (r[m] / 256) * 256 + if t { 1int } else { 0int }), len: 3 }),
            None => None,
        }
    } else {
        None
    }
}

/// Runs the instructions of `c` in turn; `None` if one is not modelled.
pub open spec fn run(st: Regs, c: Seq<u8>) -> Option<Regs>
    decreases c.len(),
{
    if c.len() == 0 {
        Some(st)
    } else {
        match step(st, c) {
            Some(p) => if 0 < p.len <= c.len() {
                run(p.st, c.skip(p.len))
            } else {
                None
            },
            None => None,
        }
    }
}

/// The registers as the binary operations find them once their operands
/// are loaded: the top value `a` in `rax` and the one below it, `b`, in
/// `rcx`.
pub open spec fn loaded(a: i64, b: i64) -> Regs {
    Regs { r: Seq::new(8, |i: int| if i == 0 { rep(a as int) } else if i == 1 { rep(b as int) } else { 0 }), left: 0, right: 0 }
}

/// The bytes every binary operation starts with: the check that two values
/// are on the stack (a trap otherwise), then the loads of the top value
/// into `rax` and the one below into `rcx`, lowering the depth by two.
pub open spec fn binary_prologue() -> Seq<u8> {
    [0x49u8, 0x83, 0xFB, 0x02, 0x0F, 0x82, 0x00, 0x00, 0x00, 0x00,
     0x49, 0x83, 0xEB, 0x01, 0x4D, 0x89, 0xD8, 0x49, 0xC1, 0xE0, 0x03, 0x4D, 0x01, 0xE8, 0x49, 0x8B, 0x00,
     0x49, 0x83, 0xEB, 0x01, 0x4D, 0x89, 0xD8, 0x49, 0xC1, 0xE0, 0x03, 0x4D, 0x01, 0xE8, 0x49, 0x8B, 0x08]@
}

/// The bytes every binary operation ends with: `rax` stored as the new top
/// value, raising the depth by one.
pub open spec fn binary_epilogue() -> Seq<u8> {
    [0x4Du8, 0x89, 0xD9, 0x49, 0xC1, 0xE1, 0x03, 0x4D, 0x01, 0xE9, 0x49, 0x89, 0x01, 0x49, 0xFF, 0xC3]@
}

/// The value a binary operation leaves, from the top value `a` and the one
/// below it `b`: the sum, difference and product (modulo 2^64), and -1 or 0
/// for the comparisons `b == a`, `b < a` and `b > a`.
pub open spec fn binary_value(op: Op, a: i64, b: i64) -> int {
    if op == Op::Add {
        rep(b + a)
    } else if op == Op::Sub {
        rep(b - a)
    } else if op == Op::Mul {
        rep(b * a)
    } else if op == Op::Eq {
        rep(if b == a { -1int } else { 0 })
    } else if op == Op::Lt {
        rep(if b < a { -1int } else { 0 })
    } else {
        rep(if b > a { -1int } else { 0 })
    }
}

/// The middle part of the native code of a binary operation, between its
/// prologue and epilogue.
pub open spec fn middle(e: Emitted, e2: Emitted) -> Seq<u8> {
    e2.code.subrange(e.code.len() + 44int, e2.code.len() - 16int)
}

/// `e2` is `e` with the code of a binary operation appended: the common
/// prologue, a middle part and the common epilogue.
pub open spec fn binary_shape(e: Emitted, e2: Emitted) -> bool {
    let k = e.code.len() as int;
    &&& e2.code.len() >= k + 60
    &&& e2.code.take(k) == e.code
    &&& e2.code.subrange(k, k + 44) == binary_prologue()
    &&& e2.code.skip(e2.code.len() - 16) == binary_epilogue()
}

proof fn lemma_run_one(st: Regs, c: Seq<u8>, n: int)
    requires
        c.len() == n,
        step(st, c) matches Some(p) && p.len == n,
        n > 0,
    ensures
        run(st, c) == Some(step(st, c)->0.st),
{
    assert(c.skip(n) =~= Seq::<u8>::empty());
    let st1 = step(st, c)->0.st;
    assert(run(st1, c.skip(n)) == Some(st1));
}

proof fn lemma_run_cons(st: Regs, c: Seq<u8>, n: int)
    requires
        step(st, c) matches Some(p) && p.len == n,
        0 < n <= c.len(),
    ensures
        run(st, c) == run(step(st, c)->0.st, c.skip(n)),
{
}

/// The code of `e2` appended to `e` is that of a binary operation whose
/// middle part, run on any operands `a` (top) and `b`, leaves in `rax` the
/// value `binary_value` gives for `op`.
pub open spec fn computes(e: Emitted, e2: Emitted, op: Op, a: i64, b: i64) -> bool {
    &&& binary_shape(e, e2)
    &&& run(loaded(a, b), middle(e, e2)) matches Some(st) && st.r[0] == binary_value(op, a, b)
}

proof fn lemma_shape(e: Emitted, e2: Emitted)
    requires
        e2.code.len() >= e.code.len() + 60,
        e2.code.take(e.code.len() as int) =~= e.code,
        e2.code.subrange(e.code.len() as int, e.code.len() + 44int) =~= binary_prologue(),
        e2.code.skip(e2.code.len() - 16) =~= binary_epilogue(),
    ensures
        binary_shape(e, e2),
{
}

/// What the native code of `+` computes: the code appended is the common
/// prologue (operands loaded into `rax` and `rcx`), a middle part and the
/// common epilogue (`rax` stored as the new top), and running the middle
/// part on any operands `a` (top) and `b` leaves in `rax` the sum `b + a`
/// modulo 2^64.
pub proof fn lemma_add_code(e: Emitted, data: u64, at: usize, nops: usize, a: i64, b: i64)
    ensures
        op_piece(e, Op::Add, data, at, nops) matches Ok(e2) && computes(e, e2, Op::Add, a, b),
{
    let e2 = op_piece(e, Op::Add, data, at, nops)->Ok_0;
    lemma_shape(e, e2);
    let core = middle(e, e2);
    assert(core =~= [0x48u8, 0x01, 0xC8]@);
    let st0 = loaded(a, b);
    assert(step(st0, core) == Some(Stepped { st: set(st0, 0, rep(rep(a as int) + rep(b as int))), len: 3 }));
    lemma_run_one(st0, core, 3);
    assert(rep(rep(a as int) + rep(b as int)) == rep(b + a)) by {
        vstd::arithmetic::div_mod::lemma_add_mod_noop(a as int, b as int, m64());
    }
}

/// What the native code of `-` computes: as for `+`, with the difference
/// `b - a` modulo 2^64 left in `rax`.
pub proof fn lemma_sub_code(e: Emitted, data: u64, at: usize, nops: usize, a: i64, b: i64)
    ensures
        op_piece(e, Op::Sub, data, at, nops) matches Ok(e2) && computes(e, e2, Op::Sub, a, b),
{
    let e2 = op_piece(e, Op::Sub, data, at, nops)->Ok_0;
    lemma_shape(e, e2);
    let core = middle(e, e2);
    assert(core =~= [0x48u8, 0x29, 0xC1, 0x48, 0x89, 0xC8]@);
    let st0 = loaded(a, b);
    let st1 = set(st0, 1, rep(rep(b as int) - rep(a as int)));
    assert(step(st0, core) == Some(Stepped { st: st1, len: 3 }));
    lemma_run_cons(st0, core, 3);
    let c1 = core.skip(3);
    assert(c1 =~= [0x48u8, 0x89, 0xC8]@);
    assert(step(st1, c1) == Some(Stepped { st: set(st1, 0, st1.r[1]), len: 3 }));
    lemma_run_one(st1, c1, 3);
    assert(rep(rep(b as int) - rep(a as int)) == rep(b - a)) by {
        vstd::arithmetic::div_mod::lemma_sub_mod_noop(b as int, a as int, m64());
    }
}

/// What the native code of `*` computes: as for `+`, with the product
/// `b * a` modulo 2^64 left in `rax`.
pub proof fn lemma_mul_code(e: Emitted, data: u64, at: usize, nops: usize, a: i64, b: i64)
    ensures
        op_piece(e, Op::Mul, data, at, nops) matches Ok(e2) && computes(e, e2, Op::Mul, a, b),
{
    let e2 = op_piece(e, Op::Mul, data, at, nops)->Ok_0;
    lemma_shape(e, e2);
    let core = middle(e, e2);
    assert(core =~= [0x48u8, 0x0F, 0xAF, 0xC1]@);
    let st0 = loaded(a, b);
    assert(step(st0, core) == Some(Stepped { st: set(st0, 0, rep(rep(a as int) * rep(b as int))), len: 4 }));
    lemma_run_one(st0, core, 4);
    assert(rep(rep(a as int) * rep(b as int)) == rep(b * a)) by {
        vstd::arithmetic::div_mod::lemma_mul_mod_noop(a as int, b as int, m64());
        vstd::arithmetic::mul::lemma_mul_is_commutative(a as int, b as int);
    }
}

/// The middle part of a comparison: compare `rcx` with `rax`, set `al` by
/// the condition code `cc`, widen it and negate, so that `rax` ends -1 or 0.
#[verifier::rlimit(40)]
proof fn lemma_compare_core(a: i64, b: i64, cc: u8)
    requires
        cc == 0x94 || cc == 0x9C || cc == 0x9F,
    ensures
        run(loaded(a, b), [0x48u8, 0x39, 0xC1, 0x0F, cc, 0xC0, 0x48, 0x0F, 0xB6, 0xC0, 0x48, 0xF7, 0xD8]@) matches Some(st)
            && st.r[0] == rep(if cond((cc - 0x90) as int, rep(b as int), rep(a as int)) == Some(true) { -1int } else { 0 }),
{
    let c = [0x48u8, 0x39, 0xC1, 0x0F, cc, 0xC0, 0x48, 0x0F, 0xB6, 0xC0, 0x48, 0xF7, 0xD8]@;
    let st0 = loaded(a, b);
    assert(two_regs(0xC1) == Some(RegPair { reg: 0, rm: 1 }));
    assert(two_regs(0xC0) == Some(RegPair { reg: 0, rm: 0 }));
    assert(two_regs(0xD8) == Some(RegPair { reg: 3, rm: 0 }));
    let st1 = Regs { left: st0.r[1], right: st0.r[0], ..st0 };
    assert(step(st0, c) == Some(Stepped { st: st1, len: 3 }));
    lemma_run_cons(st0, c, 3);
    let c1 = c.skip(3);
    assert(c1 =~= [0x0Fu8, cc, 0xC0, 0x48, 0x0F, 0xB6, 0xC0, 0x48, 0xF7, 0xD8]@);
    let t: int = if cond((cc - 0x90) as int, rep(b as int), rep(a as int)) == Some(true) { 1 } else { 0 };
    let x = st1.r[0];
    let st2 = set(st1, 0, (x / 256) * 256 + t);
    assert(step(st1, c1) == Some(Stepped { st: st2, len: 3 }));
    lemma_run_cons(st1, c1, 3);
    let c2 = c1.skip(3);
    assert(c2 =~= [0x48u8, 0x0F, 0xB6, 0xC0, 0x48, 0xF7, 0xD8]@);
    assert(((x / 256) * 256 + t) % 256 == t) by (nonlinear_arith)
        requires
            0 <= t < 256,
    ;
    let st3 = set(st2, 0, t);
    assert(step(st2, c2) == Some(Stepped { st: st3, len: 4 }));
    lemma_run_cons(st2, c2, 4);
    let c3 = c2.skip(4);
    assert(c3 =~= [0x48u8, 0xF7, 0xD8]@);
    assert(step(st3, c3) == Some(Stepped { st: set(st3, 0, rep(0 - t)), len: 3 }));
    lemma_run_one(st3, c3, 3);
}

/// A comparison's code, with middle part `cmp rcx, rax; setcc al` by `cc`,
/// widened and negated, computes what `binary_value` gives for `op`.
proof fn lemma_compare_computes(e: Emitted, e2: Emitted, op: Op, cc: u8, a: i64, b: i64)
    requires
        binary_shape(e, e2),
        middle(e, e2) == [0x48u8, 0x39, 0xC1, 0x0F, cc, 0xC0, 0x48, 0x0F, 0xB6, 0xC0, 0x48, 0xF7, 0xD8]@,
        (op == Op::Eq && cc == 0x94) || (op == Op::Lt && cc == 0x9C) || (op == Op::Gt && cc == 0x9F),
    ensures
        computes(e, e2, op, a, b),
{
    lemma_compare_core(a, b, cc);
    assert(signed(rep(a as int)) == a);
    assert(signed(rep(b as int)) == b);
}

/// What the native code of `=` computes: the code appended is the common
/// prologue (operands loaded into `rax` and `rcx`), a middle part and the
/// common epilogue (`rax` stored as the new top), and running the middle
/// part on any operands `a` (top) and `b` leaves in `rax` -1 when
/// `b == a` and 0 otherwise.
pub proof fn lemma_eq_code(e: Emitted, data: u64, at: usize, nops: usize, a: i64, b: i64)
    ensures
        op_piece(e, Op::Eq, data, at, nops) matches Ok(e2) && computes(e, e2, Op::Eq, a, b),
{
    let e2 = op_piece(e, Op::Eq, data, at, nops)->Ok_0;
    lemma_shape(e, e2);
    assert(middle(e, e2) =~= [0x48u8, 0x39, 0xC1, 0x0F, 0x94, 0xC0, 0x48, 0x0F, 0xB6, 0xC0, 0x48, 0xF7, 0xD8]@);
    lemma_compare_computes(e, e2, Op::Eq, 0x94, a, b);
}

/// What the native code of `<` computes: as for `=`, with -1 left in `rax`
/// when `b < a` and 0 otherwise.
pub proof fn lemma_lt_code(e: Emitted, data: u64, at: usize, nops: usize, a: i64, b: i64)
    ensures
        op_piece(e, Op::Lt, data, at, nops) matches Ok(e2) && computes(e, e2, Op::Lt, a, b),
{
    let e2 = op_piece(e, Op::Lt, data, at, nops)->Ok_0;
    lemma_shape(e, e2);
    assert(middle(e, e2) =~= [0x48u8, 0x39, 0xC1, 0x0F, 0x9C, 0xC0, 0x48, 0x0F, 0xB6, 0xC0, 0x48, 0xF7, 0xD8]@);
    lemma_compare_computes(e, e2, Op::Lt, 0x9C, a, b);
}

/// What the native code of `>` computes: as for `=`, with -1 left in `rax`
/// when `b > a` and 0 otherwise.
pub proof fn lemma_gt_code(e: Emitted, data: u64, at: usize, nops: usize, a: i64, b: i64)
    ensures
        op_piece(e, Op::Gt, data, at, nops) matches Ok(e2) && computes(e, e2, Op::Gt, a, b),
{
    let e2 = op_piece(e, Op::Gt, data, at, nops)->Ok_0;
    lemma_shape(e, e2);
    assert(middle(e, e2) =~= [0x48u8, 0x39, 0xC1, 0x0F, 0x9F, 0xC0, 0x48, 0x0F, 0xB6, 0xC0, 0x48, 0xF7, 0xD8]@);
    lemma_compare_computes(e, e2, Op::Gt, 0x9F, a, b);
}

/// The native code and the interpreter agree: for `+`, `-`, `=`, `<` and
/// `>`, the value the interpreter's step leaves for operands `a` (top) and
/// `b` has the register pattern the native code leaves in `rax`.
pub proof fn lemma_native_matches_interpreter(op: Op, a: i64, b: i64, depth: nat)
    requires
        op == Op::Add || op == Op::Sub || op == Op::Eq || op == Op::Lt || op == Op::Gt,
    ensures
        rep(crate::vm::semantics::results(op, 0, depth, seq![b, a])[0] as int) == binary_value(op, a, b),
{
    let r = crate::vm::semantics::results(op, 0, depth, seq![b, a])[0];
    if op == Op::Add {
        assert(r == b.wrapping_add(a));
        assert((r as int - (b + a)) % m64() == 0 || r as int == b + a || r as int == b + a - m64() || r as int == b + a + m64());
        vstd::arithmetic::div_mod::lemma_mod_add_multiples_vanish(b + a, m64());
        vstd::arithmetic::div_mod::lemma_mod_sub_multiples_vanish(b + a, m64());
    } else if op == Op::Sub {
        assert(r == b.wrapping_sub(a));
        assert(r as int == b - a || r as int == b - a - m64() || r as int == b - a + m64());
        vstd::arithmetic::div_mod::lemma_mod_add_multiples_vanish(b - a, m64());
        vstd::arithmetic::div_mod::lemma_mod_sub_multiples_vanish(b - a, m64());
    }
}

} // verus!
