use crate::common::types::Op;
use crate::jit::emit::{Emitted, op_piece};
use crate::jit::x86::{rep, signed, cond};
use crate::vm::semantics::{arity, results};
use vstd::prelude::*;

verus! {

// A reference model of the x86-64 instructions that the native code of the
// data-stack operations executes, with memory, decoded from the bytes as
// the Intel manual encodes them (REX prefix, ModRM, SIB, displacement).
// The laws below run the code the emitter produces for an operation on a
// machine whose data stack holds any values, and compare the stack it
// leaves with the interpreter's result for the same operation.

/// The sixteen general registers (as patterns in `0..2^64`), memory as
/// eight-byte cells by address, and the operands of the last compare.
pub struct Mach {
    pub r: Seq<int>,
    pub mem: Map<int, int>,
    pub left: int,
    pub right: int,
}

/// Where an operand is: a register, or memory at an address.
pub enum Place {
    Reg(int),
    Mem(int),
}

/// A decoded ModRM operand: the `r/m` place, the `reg` register, and how
/// many bytes the ModRM, SIB and displacement take.
pub struct Operands {
    pub place: Place,
    pub reg: int,
    pub len: int,
}

/// A register field extended by the REX bit `bit` (4: R, 2: X, 1: B).
pub open spec fn ext(rex: u8, field: int, bit: u8) -> int {
    field + if (rex / bit) % 2 == 1 { 8int } else { 0 }
}

/// A byte read as a signed displacement.
pub open spec fn disp8(b: u8) -> int {
    if b < 128 { b as int } else { b - 256 }
}

/// The SIB scale factor.
pub open spec fn scale(s: int) -> int {
    if s == 0 { 1 } else if s == 1 { 2 } else if s == 2 { 4 } else { 8 }
}

/// Decodes the ModRM byte at `c[i]` (with what follows it) under REX `rex`:
/// register direct, `[reg]`, `[reg + disp8]` and `[base + index*scale +
/// disp8]` forms.
pub open spec fn operands(m: Mach, rex: u8, c: Seq<u8>, i: int) -> Option<Operands> {
    if i >= c.len() {
        None
    } else {
        let modrm = c[i];
        let md = modrm / 64;
        let regf = ((modrm / 8) % 8) as int;
        let rmf = (modrm % 8) as int;
        let reg = ext(rex, regf, 4);
        if md == 3 {
            Some(Operands { place: Place::Reg(ext(rex, rmf, 1)), reg, len: 1 })
        } else if md == 0 && rmf != 4 && rmf != 5 {
            Some(Operands { place: Place::Mem(m.r[ext(rex, rmf, 1)]), reg, len: 1 })
        } else if md == 1 && rmf != 4 && i + 1 < c.len() {
            Some(Operands { place: Place::Mem(m.r[ext(rex, rmf, 1)] + disp8(c[i + 1])), reg, len: 2 })
        } else if md == 1 && rmf == 4 && i + 2 < c.len() {
            let sib = c[i + 1];
            let idx = ext(rex, ((sib / 8) % 8) as int, 2);
            let base = ext(rex, (sib % 8) as int, 1);
            if idx == 4 {
                None
            } else {
                Some(Operands {
                    place: Place::Mem(m.r[base] + m.r[idx] * scale((sib / 64) as int) + disp8(c[i + 2])),
                    reg,
                    len: 3,
                })
            }
        } else {
            None
        }
    }
}

/// The value at a place; `None` for memory that holds no cell.
pub open spec fn read(m: Mach, p: Place) -> Option<int> {
    match p {
        Place::Reg(i) => Some(m.r[i]),
        Place::Mem(a) => if m.mem.contains_key(a) { Some(m.mem[a]) } else { None },
    }
}

/// The machine with `x` written to a place.
pub open spec fn write(m: Mach, p: Place, x: int) -> Mach {
    match p {
        Place::Reg(i) => Mach { r: m.r.update(i, x), ..m },
        Place::Mem(a) => Mach { mem: m.mem.insert(a, x), ..m },
    }
}

/// The little-endian value of bytes.
pub open spec fn le_value(b: Seq<u8>) -> int
    decreases b.len(),
{
    if b.len() == 0 {
        0
    } else {
        b[0] + 256 * le_value(b.skip(1))
    }
}

/// An instruction run: the machine after it and its length in bytes.
pub struct MStepped {
    pub m: Mach,
    pub len: int,
}

/// Decodes the 64-bit (REX.W) instruction at the start of `c` and runs it.
pub open spec fn wide_step(m: Mach, c: Seq<u8>) -> Option<MStepped> {
    let rex = c[0];
    let op = c[1];
    if op == 0x0F && c.len() >= 4 {
        match operands(m, rex, c, 3) {
            Some(o) => match read(m, o.place) {
                Some(v) => if c[2] == 0xAF {
                    Some(MStepped { m: write(m, Place::Reg(o.reg), rep(m.r[o.reg] * v)), len: 3 + o.len })
                } else if c[2] == 0xB6 && o.place is Reg && o.place->Reg_0 < 4 {
                    Some(MStepped { m: write(m, Place::Reg(o.reg), v % 256), len: 3 + o.len })
                } else {
                    None
                },
                None => None,
            },
            None => None,
        }
    } else if 0xB8 <= op <= 0xBF {
        if c.len() >= 10 {
            Some(MStepped { m: write(m, Place::Reg(ext(rex, (op - 0xB8) as int, 1)), le_value(c.subrange(2, 10))), len: 10 })
        } else {
            None
        }
    } else {
        match operands(m, rex, c, 2) {
            None => None,
            Some(o) => {
                let n = 2 + o.len;
                let v = read(m, o.place);
                let g = m.r[o.reg];
                if op == 0x89 {
                    Some(MStepped { m: write(m, o.place, g), len: n })
                } else if v is None {
                    None
                } else if op == 0x01 {
                    Some(MStepped { m: write(m, o.place, rep(v->0 + g)), len: n })
                } else if op == 0x29 {
                    Some(MStepped { m: write(m, o.place, rep(v->0 - g)), len: n })
                } else if op == 0x39 {
                    Some(MStepped { m: Mach { left: v->0, right: g, ..m }, len: n })
                } else if op == 0x3B {
                    Some(MStepped { m: Mach { left: g, right: v->0, ..m }, len: n })
                } else if op == 0x8B {
                    Some(MStepped { m: write(m, Place::Reg(o.reg), v->0), len: n })
                } else if op == 0x83 && n < c.len() && (o.reg % 8) == 5 {
                    Some(MStepped { m: write(m, o.place, rep(v->0 - disp8(c[n]))), len: n + 1 })
                } else if op == 0x83 && n < c.len() && (o.reg % 8) == 7 {
                    Some(MStepped { m: Mach { left: v->0, right: rep(disp8(c[n])), ..m }, len: n + 1 })
                } else if op == 0xC1 && n < c.len() && (o.reg % 8) == 4 && c[n] == 3 {
                    Some(MStepped { m: write(m, o.place, rep(v->0 * 8)), len: n + 1 })
                } else if op == 0xF7 && (o.reg % 8) == 3 {
                    Some(MStepped { m: write(m, o.place, rep(0 - v->0)), len: n })
                } else if op == 0xFF && (o.reg % 8) == 0 {
                    Some(MStepped { m: write(m, o.place, rep(v->0 + 1)), len: n })
                } else if op == 0xFF && (o.reg % 8) == 1 {
                    Some(MStepped { m: write(m, o.place, rep(v->0 - 1)), len: n })
                } else {
                    None
                }
            },
        }
    }
}

/// Decodes and runs the instruction at the start of `c`: a REX.W
/// instruction (`mov`, `add`, `sub`, `cmp`, `neg`, `imul`, `movzx` of a
/// byte, `shl` by 3, `inc`, `dec`, `mov` of a 64-bit immediate), `setcc al`,
/// or a conditional jump, which must not be taken: the native code only
/// jumps away to a trap.
#[verifier::opaque]
pub open spec fn mstep(m: Mach, c: Seq<u8>) -> Option<MStepped> {
    if c.len() >= 3 && 0x48 <= c[0] <= 0x4F {
        wide_step(m, c)
    } else if c.len() >= 3 && c[0] == 0x0F && 0x90 <= c[1] <= 0x9F && c[2] == 0xC0 {
        match cond((c[1] - 0x90) as int, m.left, m.right) {
            Some(t) => Some(MStepped { m: write(m, Place::Reg(0), (m.r[0] / 256) * 256 + if t { 1int } else { 0int }), len: 3 }),
            None => None,
        }
    } else if c.len() >= 6 && c[0] == 0x0F && 0x80 <= c[1] <= 0x8F {
        match cond((c[1] - 0x80) as int, m.left, m.right) {
            Some(false) => Some(MStepped { m, len: 6 }),
            _ => None,
        }
    } else {
        None
    }
}

/// Runs the instructions of `c` in turn; `None` if one is not modelled or
/// a jump to a trap is taken.
pub open spec fn mrun(m: Mach, c: Seq<u8>) -> Option<Mach>
    decreases c.len(),
{
    if c.len() == 0 {
        Some(m)
    } else {
        match mstep(m, c) {
            Some(p) => if 0 < p.len <= c.len() {
                mrun(p.m, c.skip(p.len))
            } else {
                None
            },
            None => None,
        }
    }
}

proof fn lemma_mrun_cons(m: Mach, c: Seq<u8>, n: int)
    requires
        mstep(m, c) matches Some(p) && p.len == n,
        0 < n <= c.len(),
    ensures
        mrun(m, c) == mrun(mstep(m, c)->0.m, c.skip(n)),
{
}

proof fn lemma_mrun_one(m: Mach, c: Seq<u8>, n: int)
    requires
        c.len() == n,
        mstep(m, c) matches Some(p) && p.len == n,
        n > 0,
    ensures
        mrun(m, c) == Some(mstep(m, c)->0.m),
{
    assert(c.skip(n) =~= Seq::<u8>::empty());
    let m1 = mstep(m, c)->0.m;
    assert(mrun(m1, c.skip(n)) == Some(m1));
}

/// The registers the native code keeps the data stack in: `r13` its base
/// address, `r11` its depth, and `rbx` the context, whose field at 0x20 is
/// the stack's capacity.
pub open spec fn depth_reg() -> int { 11 }
pub open spec fn base_reg() -> int { 13 }
pub open spec fn ctx_reg() -> int { 3 }

/// Machine `m` holds data stack `s` (bottom first) of capacity `cap`: the
/// depth and base registers, a cell for each value at `base + 8 * i`, the
/// capacity in the context, and the context apart from the stack's cells.
pub open spec fn holds_stack(m: Mach, s: Seq<i64>, cap: int) -> bool {
    let base = m.r[base_reg()];
    &&& m.r.len() == 16
    &&& forall|i: int| 0 <= i < 16 ==> 0 <= #[trigger] m.r[i] < crate::jit::x86::m64()
    &&& m.r[depth_reg()] == s.len()
    &&& s.len() < cap
    &&& base + 8 * cap < crate::jit::x86::m64()
    &&& forall|i: int| 0 <= i < s.len() ==> m.mem.contains_key(base + 8 * i) && #[trigger] m.mem[base + 8 * i] == rep(s[i] as int)
    &&& m.mem.contains_key(m.r[ctx_reg()] + 0x20)
    &&& m.mem[m.r[ctx_reg()] + 0x20] == cap
    &&& (m.r[ctx_reg()] + 0x20 < base || m.r[ctx_reg()] + 0x20 >= base + 8 * cap)
}

/// The data stack the interpreter leaves after data operation `op` (with
/// data `data`) on stack `s`.
pub open spec fn interpreted(op: Op, data: u64, s: Seq<i64>) -> Seq<i64> {
    let n = arity(op) as int;
    s.take(s.len() - n) + results(op, data, s.len(), s.subrange(s.len() - n, s.len() as int))
}

/// The bytes the emitter appends to `e` for `op`.
pub open spec fn piece_bytes(e: Emitted, op: Op, data: u64, at: usize, nops: usize) -> Seq<u8> {
    op_piece(e, op, data, at, nops)->Ok_0.code.skip(e.code.len() as int)
}

/// The native code of `op` takes a machine holding stack `s` to one
/// holding the stack the interpreter leaves, below the capacity.
pub open spec fn runs_like_interpreter(e: Emitted, op: Op, data: u64, at: usize, nops: usize, m: Mach, s: Seq<i64>, cap: int) -> bool {
    &&& op_piece(e, op, data, at, nops) is Ok
    &&& mrun(m, piece_bytes(e, op, data, at, nops)) matches Some(m2)
        && m2.r[depth_reg()] == interpreted(op, data, s).len()
        && cells_hold(m2, m.r[base_reg()], interpreted(op, data, s))
}

/// Memory of `m` holds the values of `t` in cells from `base` up.
pub open spec fn cells_hold(mach: Mach, start: int, vals: Seq<i64>) -> bool {
    &&& forall|j: int| 0 <= j < vals.len() ==> #[trigger] mach.mem.contains_key(start + 8 * j)
    &&& forall|j: int| 0 <= j < vals.len() ==> #[trigger] mach.mem[start + 8 * j] == rep(vals[j] as int)
}

/// `rep` of a sum depends only on the patterns of its terms.
proof fn lemma_rep_add(x: int, y: int)
    ensures
        rep(rep(x) + y) == rep(x + y),
{
    vstd::arithmetic::div_mod::lemma_add_mod_noop(x, y, crate::jit::x86::m64());
    vstd::arithmetic::div_mod::lemma_mod_twice(y, crate::jit::x86::m64());
    vstd::arithmetic::div_mod::lemma_add_mod_noop(rep(x), y, crate::jit::x86::m64());
}

/// The pattern of a wrapped sum is the pattern of the exact sum.
proof fn lemma_rep_wrapping(x: i64, y: i64)
    ensures
        rep(x.wrapping_add(y) as int) == rep(x + y),
        rep(x.wrapping_sub(y) as int) == rep(x - y),
{
    let m = crate::jit::x86::m64();
    vstd::arithmetic::div_mod::lemma_mod_add_multiples_vanish(x + y, m);
    vstd::arithmetic::div_mod::lemma_mod_sub_multiples_vanish(x + y, m);
    vstd::arithmetic::div_mod::lemma_mod_add_multiples_vanish(x - y, m);
    vstd::arithmetic::div_mod::lemma_mod_sub_multiples_vanish(x - y, m);
}

/// A register or cell pattern is its own pattern.
proof fn lemma_rep_small(x: int)
    requires
        0 <= x < crate::jit::x86::m64(),
    ensures
        rep(x) == x,
{
    vstd::arithmetic::div_mod::lemma_small_mod(x as nat, crate::jit::x86::m64() as nat);
}

/// A cell of a held stack.
proof fn lemma_cell(m: Mach, s: Seq<i64>, cap: int, i: int)
    requires
        holds_stack(m, s, cap),
        0 <= i < s.len(),
    ensures
        m.mem.contains_key(m.r[13] + 8 * i),
        m.mem[m.r[13] + 8 * i] == rep(s[i] as int),
{
    assert(m.mem[m.r[base_reg()] + 8 * i] == rep(s[i] as int));
}

/// The bytes of `1+` (`k` = 0xC0) and `1-` (`k` = 0xC8).
pub open spec fn inc_dec_code(k: u8) -> Seq<u8> {
    [0x49u8, 0x83, 0xFB, 0x01, 0x0F, 0x82, 0x00, 0x00, 0x00, 0x00,
     0x4F, 0x8B, 0x44, 0xDD, 0xF8, 0x49, 0xFF, k, 0x4F, 0x89, 0x44, 0xDD, 0xF8]@
}

proof fn lemma_inc_dec_bytes(e: Emitted, op: Op, data: u64, at: usize, nops: usize)
    requires
        op == Op::Inc || op == Op::Dec,
    ensures
        op_piece(e, op, data, at, nops) is Ok,
        piece_bytes(e, op, data, at, nops) == inc_dec_code(if op == Op::Inc { 0xC0u8 } else { 0xC8u8 }),
{
    let c = piece_bytes(e, op, data, at, nops);
    assert(c =~= inc_dec_code(if op == Op::Inc { 0xC0u8 } else { 0xC8u8 }));
}

/// Running the code of `1+` / `1-` on a machine with depth `d` (at least
/// one) whose top cell holds `v`: the top cell ends `v + 1` / `v - 1`
/// (modulo 2^64), nothing else in memory changes, the depth stays.
#[verifier::rlimit(40)]
proof fn lemma_inc_dec_run(m: Mach, k: u8, v: int)
    requires
        k == 0xC0 || k == 0xC8,
        m.r.len() == 16,
        1 <= m.r[11] < crate::jit::x86::m64(),
        m.mem.contains_key(m.r[13] + 8 * (m.r[11] - 1)),
        m.mem[m.r[13] + 8 * (m.r[11] - 1)] == v,
    ensures
        mrun(m, inc_dec_code(k)) matches Some(m2)
            && m2.r[11] == m.r[11]
            && m2.mem == m.mem.insert(m.r[13] + 8 * (m.r[11] - 1), if k == 0xC0 { rep(v + 1) } else { rep(v - 1) }),
{
    reveal(mstep);
    let c = inc_dec_code(k);
    let d = m.r[11];
    let base = m.r[13];
    lemma_rep_small(d);
    assert(ext(0x49, 7, 4) == 7 && ext(0x49, 3, 1) == 11);
    let m1 = Mach { left: d, right: 1, ..m };
    assert(mstep(m, c) == Some(MStepped { m: m1, len: 4 }));
    lemma_mrun_cons(m, c, 4);
    let c1 = c.skip(4);
    assert(c1 =~= c.subrange(4, 23));
    assert(mstep(m1, c1) == Some(MStepped { m: m1, len: 6 }));
    lemma_mrun_cons(m1, c1, 6);
    let c2 = c1.skip(6);
    assert(c2 =~= [0x4Fu8, 0x8B, 0x44, 0xDD, 0xF8, 0x49, 0xFF, k, 0x4F, 0x89, 0x44, 0xDD, 0xF8]@);
    assert(ext(0x4F, 0, 4) == 8 && ext(0x4F, 3, 2) == 11 && ext(0x4F, 5, 1) == 13);
    assert(scale(3) == 8 && disp8(0xF8) == -8);
    let addr = base + 8 * (d - 1);
    assert(operands(m1, 0x4F, c2, 2) == Some(Operands { place: Place::Mem(addr), reg: 8, len: 3 }));
    let m2 = write(m1, Place::Reg(8), v);
    assert(mstep(m1, c2) == Some(MStepped { m: m2, len: 5 }));
    lemma_mrun_cons(m1, c2, 5);
    let c3 = c2.skip(5);
    assert(c3 =~= [0x49u8, 0xFF, k, 0x4F, 0x89, 0x44, 0xDD, 0xF8]@);
    assert(ext(0x49, 0, 1) == 8 && ext(0x49, 1, 1) == 9);
    let w = if k == 0xC0 { rep(v + 1) } else { rep(v - 1) };
    let m3 = write(m2, Place::Reg(8), w);
    assert(mstep(m2, c3) == Some(MStepped { m: m3, len: 3 }));
    lemma_mrun_cons(m2, c3, 3);
    let c4 = c3.skip(3);
    assert(c4 =~= [0x4Fu8, 0x89, 0x44, 0xDD, 0xF8]@);
    assert(operands(m3, 0x4F, c4, 2) == Some(Operands { place: Place::Mem(addr), reg: 8, len: 3 }));
    let m4 = write(m3, Place::Mem(addr), w);
    assert(mstep(m3, c4) == Some(MStepped { m: m4, len: 5 }));
    lemma_mrun_one(m3, c4, 5);
}

/// The native code of `1+` and `1-` runs like the interpreter: on a machine
/// holding any data stack with at least one value, it leaves the depth and
/// every cell as the interpreter's step leaves the stack.
pub proof fn lemma_inc_dec_native(e: Emitted, op: Op, data: u64, at: usize, nops: usize, m: Mach, s: Seq<i64>, cap: int)
    requires
        op == Op::Inc || op == Op::Dec,
        holds_stack(m, s, cap),
        s.len() >= 1,
    ensures
        runs_like_interpreter(e, op, data, at, nops, m, s, cap),
{
    let d = s.len() as int;
    let base = m.r[base_reg()];
    let x = s[d - 1];
    let k: u8 = if op == Op::Inc { 0xC0 } else { 0xC8 };
    lemma_inc_dec_bytes(e, op, data, at, nops);
    lemma_cell(m, s, cap, d - 1);
    lemma_inc_dec_run(m, k, rep(x as int));
    let m4 = mrun(m, inc_dec_code(k))->0;
    let t = interpreted(op, data, s);
    lemma_rep_add(x as int, 1);
    lemma_rep_add(x as int, -1);
    lemma_rep_wrapping(x, 1);
    assert(t =~= s.take(d - 1).push(if op == Op::Inc { x.wrapping_add(1) } else { x.wrapping_sub(1) }));
    assert(t.len() == d);
    assert(m4.r[11] == d);
    let b13 = m.r[13];
    assert(b13 == m.r[base_reg()]);
    assert forall|i: int| 0 <= i < t.len() implies #[trigger] m4.mem.contains_key(b13 + 8 * i) by {
        if i < d - 1 {
            lemma_cell(m, s, cap, i);
        }
    }
    assert forall|i: int| 0 <= i < t.len() implies #[trigger] m4.mem[b13 + 8 * i] == rep(t[i] as int) by {
        if i < d - 1 {
            assert(t[i] == s[i]);
            lemma_cell(m, s, cap, i);
            assert(b13 + 8 * i != m.r[13] + 8 * (m.r[11] - 1));
        } else {
            assert(i == d - 1);
            assert(t[i] == (if op == Op::Inc { x.wrapping_add(1) } else { x.wrapping_sub(1) }));
        }
    }
    assert(cells_hold(m4, b13, t));
    assert(mrun(m, piece_bytes(e, op, data, at, nops)) == Some(m4));
    assert(m4.r[depth_reg()] == t.len());
}

// Single instructions of the data-stack code, each run on any machine.

/// `cmp r11, n` then `jb` (to a trap): not taken when the depth is at
/// least `n`.
proof fn lemma_guard_min(m: Mach, c: Seq<u8>, n: u8)
    requires
        m.r.len() == 16,
        n < 128,
        n <= m.r[11] < crate::jit::x86::m64(),
        c.len() >= 10,
        c.take(10) == [0x49u8, 0x83, 0xFB, n, 0x0F, 0x82, 0x00, 0x00, 0x00, 0x00]@,
    ensures
        mrun(m, c) == mrun(Mach { left: m.r[11], right: n as int, ..m }, c.skip(10)),
{
    reveal(mstep);
    assert(c[0] == 0x49 && c[1] == 0x83 && c[2] == 0xFB && c[3] == n && c[4] == 0x0F && c[5] == 0x82);
    assert(ext(0x49, 7, 4) == 7 && ext(0x49, 3, 1) == 11);
    lemma_rep_small(n as int);
    let m1 = Mach { left: m.r[11], right: n as int, ..m };
    assert(mstep(m, c) == Some(MStepped { m: m1, len: 4 }));
    lemma_mrun_cons(m, c, 4);
    let c1 = c.skip(4);
    assert(c1[0] == 0x0F && c1[1] == 0x82);
    assert(mstep(m1, c1) == Some(MStepped { m: m1, len: 6 }));
    lemma_mrun_cons(m1, c1, 6);
    assert(c1.skip(6) =~= c.skip(10));
}

/// `cmp r11, [rbx + 0x20]` then `jge` (to a trap): not taken while the
/// depth is below the capacity.
proof fn lemma_guard_cap(m: Mach, c: Seq<u8>, cap: int)
    requires
        m.r.len() == 16,
        0 <= m.r[11] < cap < 0x4000_0000_0000_0000,
        m.mem.contains_key(m.r[3] + 0x20),
        m.mem[m.r[3] + 0x20] == cap,
        c.len() >= 10,
        c.take(10) == [0x4Cu8, 0x3B, 0x5B, 0x20, 0x0F, 0x8D, 0x00, 0x00, 0x00, 0x00]@,
    ensures
        mrun(m, c) == mrun(Mach { left: m.r[11], right: cap, ..m }, c.skip(10)),
{
    reveal(mstep);
    assert(c[0] == 0x4C && c[1] == 0x3B && c[2] == 0x5B && c[3] == 0x20 && c[4] == 0x0F && c[5] == 0x8D);
    assert(ext(0x4C, 3, 4) == 11 && ext(0x4C, 3, 1) == 3 && disp8(0x20) == 32);
    let m1 = Mach { left: m.r[11], right: cap, ..m };
    assert(mstep(m, c) == Some(MStepped { m: m1, len: 4 }));
    lemma_mrun_cons(m, c, 4);
    let c1 = c.skip(4);
    assert(c1[0] == 0x0F && c1[1] == 0x8D);
    assert(mstep(m1, c1) == Some(MStepped { m: m1, len: 6 }));
    lemma_mrun_cons(m1, c1, 6);
    assert(c1.skip(6) =~= c.skip(10));
}

/// The cell address `[r13 + r11*8 + disp]`.
pub open spec fn cell_at(m: Mach, disp: u8) -> int {
    m.r[13] + m.r[11] * 8 + disp8(disp)
}

/// `mov r8/r9, [r13 + r11*8 + disp]` (ModRM 0x44 / 0x4C).
proof fn lemma_load(m: Mach, c: Seq<u8>, modrm: u8, disp: u8)
    requires
        m.r.len() == 16,
        modrm == 0x44 || modrm == 0x4C,
        c.len() >= 5,
        c.take(5) == [0x4Fu8, 0x8B, modrm, 0xDD, disp]@,
        m.mem.contains_key(cell_at(m, disp)),
    ensures
        mrun(m, c) == mrun(write(m, Place::Reg(if modrm == 0x44 { 8int } else { 9 }), m.mem[cell_at(m, disp)]), c.skip(5)),
{
    reveal(mstep);
    assert(c[0] == 0x4F && c[1] == 0x8B && c[2] == modrm && c[3] == 0xDD && c[4] == disp);
    assert(ext(0x4F, 0, 4) == 8 && ext(0x4F, 1, 4) == 9 && ext(0x4F, 3, 2) == 11 && ext(0x4F, 5, 1) == 13);
    assert(scale(3) == 8);
    let reg = if modrm == 0x44 { 8int } else { 9 };
    assert(operands(m, 0x4F, c, 2) == Some(Operands { place: Place::Mem(cell_at(m, disp)), reg, len: 3 }));
    assert(mstep(m, c) == Some(MStepped { m: write(m, Place::Reg(reg), m.mem[cell_at(m, disp)]), len: 5 }));
    lemma_mrun_cons(m, c, 5);
}

/// `mov [r13 + r11*8 + disp], r8/r9` (ModRM 0x44 / 0x4C).
proof fn lemma_store(m: Mach, c: Seq<u8>, modrm: u8, disp: u8)
    requires
        m.r.len() == 16,
        modrm == 0x44 || modrm == 0x4C,
        c.len() >= 5,
        c.take(5) == [0x4Fu8, 0x89, modrm, 0xDD, disp]@,
    ensures
        mrun(m, c) == mrun(write(m, Place::Mem(cell_at(m, disp)), m.r[if modrm == 0x44 { 8int } else { 9 }]), c.skip(5)),
{
    reveal(mstep);
    assert(c[0] == 0x4F && c[1] == 0x89 && c[2] == modrm && c[3] == 0xDD && c[4] == disp);
    assert(ext(0x4F, 0, 4) == 8 && ext(0x4F, 1, 4) == 9 && ext(0x4F, 3, 2) == 11 && ext(0x4F, 5, 1) == 13);
    assert(scale(3) == 8);
    let reg = if modrm == 0x44 { 8int } else { 9 };
    assert(operands(m, 0x4F, c, 2) == Some(Operands { place: Place::Mem(cell_at(m, disp)), reg, len: 3 }));
    assert(mstep(m, c) == Some(MStepped { m: write(m, Place::Mem(cell_at(m, disp)), m.r[reg]), len: 5 }));
    lemma_mrun_cons(m, c, 5);
}

/// `inc r11` / `dec r11` (ModRM 0xC3 / 0xCB).
proof fn lemma_step_depth(m: Mach, c: Seq<u8>, modrm: u8)
    requires
        m.r.len() == 16,
        modrm == 0xC3 || modrm == 0xCB,
        modrm == 0xC3 ==> 0 <= m.r[11] < crate::jit::x86::m64() - 1,
        modrm == 0xCB ==> 1 <= m.r[11] < crate::jit::x86::m64(),
        c.len() >= 3,
        c.take(3) == [0x49u8, 0xFF, modrm]@,
    ensures
        mrun(m, c) == mrun(write(m, Place::Reg(11), if modrm == 0xC3 { m.r[11] + 1 } else { m.r[11] - 1 }), c.skip(3)),
{
    reveal(mstep);
    assert(c[0] == 0x49 && c[1] == 0xFF && c[2] == modrm);
    assert(ext(0x49, 0, 4) == 0 && ext(0x49, 1, 4) == 1 && ext(0x49, 3, 1) == 11);
    if modrm == 0xC3 {
        lemma_rep_small(m.r[11] + 1);
    } else {
        lemma_rep_small(m.r[11] - 1);
    }
    let x = if modrm == 0xC3 { m.r[11] + 1 } else { m.r[11] - 1 };
    assert(mstep(m, c) == Some(MStepped { m: write(m, Place::Reg(11), x), len: 3 }));
    lemma_mrun_cons(m, c, 3);
}

proof fn lemma_mrun_empty(m: Mach, c: Seq<u8>)
    requires
        c.len() == 0,
    ensures
        mrun(m, c) == Some(m),
{
}

/// The bytes of `DUP`, `DROP`, `SWAP` and `OVER`.
pub open spec fn shuffle_code(op: Op) -> Seq<u8> {
    if op == Op::Dup {
        [0x49u8, 0x83, 0xFB, 0x01, 0x0F, 0x82, 0x00, 0x00, 0x00, 0x00,
         0x4C, 0x3B, 0x5B, 0x20, 0x0F, 0x8D, 0x00, 0x00, 0x00, 0x00,
         0x4F, 0x8B, 0x44, 0xDD, 0xF8, 0x4F, 0x89, 0x44, 0xDD, 0x00, 0x49, 0xFF, 0xC3]@
    } else if op == Op::Drop {
        [0x49u8, 0x83, 0xFB, 0x01, 0x0F, 0x82, 0x00, 0x00, 0x00, 0x00, 0x49, 0xFF, 0xCB]@
    } else if op == Op::Swap {
        [0x49u8, 0x83, 0xFB, 0x02, 0x0F, 0x82, 0x00, 0x00, 0x00, 0x00,
         0x4F, 0x8B, 0x44, 0xDD, 0xF8, 0x4F, 0x8B, 0x4C, 0xDD, 0xF0, 0x4F, 0x89, 0x4C, 0xDD, 0xF8, 0x4F, 0x89, 0x44, 0xDD, 0xF0]@
    } else {
        [0x49u8, 0x83, 0xFB, 0x02, 0x0F, 0x82, 0x00, 0x00, 0x00, 0x00,
         0x4C, 0x3B, 0x5B, 0x20, 0x0F, 0x8D, 0x00, 0x00, 0x00, 0x00,
         0x4F, 0x8B, 0x44, 0xDD, 0xF0, 0x4F, 0x89, 0x44, 0xDD, 0x00, 0x49, 0xFF, 0xC3]@
    }
}

proof fn lemma_shuffle_bytes(e: Emitted, op: Op, data: u64, at: usize, nops: usize)
    requires
        op == Op::Dup || op == Op::Drop || op == Op::Swap || op == Op::Over,
    ensures
        op_piece(e, op, data, at, nops) is Ok,
        piece_bytes(e, op, data, at, nops) == shuffle_code(op),
{
    assert(piece_bytes(e, op, data, at, nops) =~= shuffle_code(op));
}

/// The machine with the depth and memory of `m2` holds `t` from `base`.
proof fn lemma_cells_hold_from(m: Mach, s: Seq<i64>, cap: int, m2: Mach, t: Seq<i64>, keep: int)
    requires
        holds_stack(m, s, cap),
        0 <= keep <= s.len(),
        keep <= t.len(),
        forall|i: int| 0 <= i < keep ==> t[i] == s[i],
        forall|i: int| 0 <= i < keep ==> #[trigger] m2.mem.contains_key(m.r[13] + 8 * i),
        forall|i: int| 0 <= i < keep ==> #[trigger] m2.mem[m.r[13] + 8 * i] == m.mem[m.r[13] + 8 * i],
        forall|i: int| keep <= i < t.len() ==> #[trigger] m2.mem.contains_key(m.r[13] + 8 * i),
        forall|i: int| keep <= i < t.len() ==> #[trigger] m2.mem[m.r[13] + 8 * i] == rep(t[i] as int),
    ensures
        cells_hold(m2, m.r[13], t),
{
    assert forall|i: int| 0 <= i < t.len() implies #[trigger] m2.mem.contains_key(m.r[13] + 8 * i) by {
    }
    assert forall|i: int| 0 <= i < t.len() implies #[trigger] m2.mem[m.r[13] + 8 * i] == rep(t[i] as int) by {
        if i < keep {
            lemma_cell(m, s, cap, i);
        }
    }
}

/// The common start of `DUP`, `DROP`, `SWAP` and `OVER`: the guard that
/// enough values are on the stack.
#[verifier::rlimit(60)]
proof fn lemma_shuffle_start(m: Mach, s: Seq<i64>, cap: int, op: Op)
    requires
        op == Op::Dup || op == Op::Drop || op == Op::Swap || op == Op::Over,
        holds_stack(m, s, cap),
        s.len() >= if op == Op::Dup || op == Op::Drop { 1int } else { 2 },
    ensures
        mrun(m, shuffle_code(op)) == mrun(
            Mach { left: s.len() as int, right: if op == Op::Dup || op == Op::Drop { 1int } else { 2 }, ..m },
            shuffle_code(op).skip(10)),
        cap < 0x2000_0000_0000_0000,
        m.r[13] >= 0,
{
    assert(0 <= m.r[13]);
    let n: u8 = if op == Op::Dup || op == Op::Drop { 1 } else { 2 };
    assert(shuffle_code(op).take(10) =~= [0x49u8, 0x83, 0xFB, n, 0x0F, 0x82, 0x00, 0x00, 0x00, 0x00]@);
    lemma_guard_min(m, shuffle_code(op), n);
}

/// The cells below `keep` are untouched when the memory only changed at or
/// above cell `keep`.
proof fn lemma_low_cells(m: Mach, s: Seq<i64>, cap: int, mem2: Map<int, int>, keep: int)
    requires
        holds_stack(m, s, cap),
        0 <= keep <= s.len(),
        forall|a: int| a < m.r[13] + 8 * keep && m.mem.contains_key(a) ==> mem2.contains_key(a) && #[trigger] mem2[a] == m.mem[a],
    ensures
        forall|i: int| 0 <= i < keep ==> #[trigger] mem2.contains_key(m.r[13] + 8 * i),
        forall|i: int| 0 <= i < keep ==> #[trigger] mem2[m.r[13] + 8 * i] == m.mem[m.r[13] + 8 * i],
{
    assert forall|i: int| 0 <= i < keep implies #[trigger] mem2.contains_key(m.r[13] + 8 * i) by {
        lemma_cell(m, s, cap, i);
        assert(mem2[m.r[13] + 8 * i] == m.mem[m.r[13] + 8 * i]);
    }
    assert forall|i: int| 0 <= i < keep implies #[trigger] mem2[m.r[13] + 8 * i] == m.mem[m.r[13] + 8 * i] by {
        lemma_cell(m, s, cap, i);
    }
}

/// The native code of `DROP` runs like the interpreter: on a machine
/// holding any data stack with a value, it leaves the depth and every cell
/// as the interpreter's step leaves the stack.
pub proof fn lemma_drop_native(e: Emitted, data: u64, at: usize, nops: usize, m: Mach, s: Seq<i64>, cap: int)
    requires
        holds_stack(m, s, cap),
        s.len() >= 1,
    ensures
        runs_like_interpreter(e, Op::Drop, data, at, nops, m, s, cap),
{
    let op = Op::Drop;
    lemma_shuffle_bytes(e, op, data, at, nops);
    lemma_shuffle_start(m, s, cap, op);
    let c = shuffle_code(op);
    let d = s.len() as int;
    let t = interpreted(op, data, s);
    let m1 = Mach { left: d, right: 1, ..m };
    let c1 = c.skip(10);
    assert(c1 =~= [0x49u8, 0xFF, 0xCB]@);
    assert(c1.take(3) =~= c1);
    lemma_step_depth(m1, c1, 0xCB);
    let m2 = write(m1, Place::Reg(11), d - 1);
    lemma_mrun_empty(m2, c1.skip(3));
    assert(t =~= s.take(d - 1));
    lemma_low_cells(m, s, cap, m2.mem, d - 1);
    lemma_cells_hold_from(m, s, cap, m2, t, d - 1);
}

/// Running the body of `SWAP` (after its guard): the top two cells change
/// places, the depth stays.
#[verifier::rlimit(30)]
proof fn lemma_swap_run(m: Mach, c: Seq<u8>, vx: int, vy: int)
    requires
        m.r.len() == 16,
        2 <= m.r[11] < 0x4000_0000_0000_0000,
        c == [0x4Fu8, 0x8B, 0x44, 0xDD, 0xF8, 0x4F, 0x8B, 0x4C, 0xDD, 0xF0, 0x4F, 0x89, 0x4C, 0xDD, 0xF8, 0x4F, 0x89, 0x44, 0xDD, 0xF0]@,
        m.mem.contains_key(m.r[13] + 8 * (m.r[11] - 1)),
        m.mem[m.r[13] + 8 * (m.r[11] - 1)] == vx,
        m.mem.contains_key(m.r[13] + 8 * (m.r[11] - 2)),
        m.mem[m.r[13] + 8 * (m.r[11] - 2)] == vy,
    ensures
        mrun(m, c) matches Some(m2) && m2.r[11] == m.r[11]
            && m2.mem == m.mem.insert(m.r[13] + 8 * (m.r[11] - 1), vy).insert(m.r[13] + 8 * (m.r[11] - 2), vx),
{
    let base = m.r[13];
    let d = m.r[11];
    assert(c.take(5) =~= [0x4Fu8, 0x8B, 0x44, 0xDD, 0xF8]@);
    assert(cell_at(m, 0xF8) == base + 8 * (d - 1));
    lemma_load(m, c, 0x44, 0xF8);
    let m2 = write(m, Place::Reg(8), vx);
    let c2 = c.skip(5);
    assert(c2.take(5) =~= [0x4Fu8, 0x8B, 0x4C, 0xDD, 0xF0]@);
    assert(cell_at(m2, 0xF0) == base + 8 * (d - 2));
    lemma_load(m2, c2, 0x4C, 0xF0);
    let m3 = write(m2, Place::Reg(9), vy);
    let c3 = c2.skip(5);
    assert(c3.take(5) =~= [0x4Fu8, 0x89, 0x4C, 0xDD, 0xF8]@);
    assert(cell_at(m3, 0xF8) == base + 8 * (d - 1));
    lemma_store(m3, c3, 0x4C, 0xF8);
    let m4 = write(m3, Place::Mem(base + 8 * (d - 1)), vy);
    let c4 = c3.skip(5);
    assert(c4.take(5) =~= [0x4Fu8, 0x89, 0x44, 0xDD, 0xF0]@);
    assert(cell_at(m4, 0xF0) == base + 8 * (d - 2));
    lemma_store(m4, c4, 0x44, 0xF0);
    let m5 = write(m4, Place::Mem(base + 8 * (d - 2)), vx);
    lemma_mrun_empty(m5, c4.skip(5));
}

/// The native code of `SWAP` runs like the interpreter: on a machine
/// holding any data stack with two values, it leaves the depth and every
/// cell as the interpreter's step leaves the stack.
pub proof fn lemma_swap_native(e: Emitted, data: u64, at: usize, nops: usize, m: Mach, s: Seq<i64>, cap: int)
    requires
        holds_stack(m, s, cap),
        s.len() >= 2,
    ensures
        runs_like_interpreter(e, Op::Swap, data, at, nops, m, s, cap),
{
    let op = Op::Swap;
    lemma_shuffle_bytes(e, op, data, at, nops);
    lemma_shuffle_start(m, s, cap, op);
    let c = shuffle_code(op);
    let d = s.len() as int;
    let base = m.r[13];
    let t = interpreted(op, data, s);
    lemma_cell(m, s, cap, d - 1);
    lemma_cell(m, s, cap, d - 2);
    let x = s[d - 1];
    let y = s[d - 2];
    let m1 = Mach { left: d, right: 2, ..m };
    let c1 = c.skip(10);
    assert(c1 =~= [0x4Fu8, 0x8B, 0x44, 0xDD, 0xF8, 0x4F, 0x8B, 0x4C, 0xDD, 0xF0, 0x4F, 0x89, 0x4C, 0xDD, 0xF8, 0x4F, 0x89, 0x44, 0xDD, 0xF0]@);
    lemma_swap_run(m1, c1, rep(x as int), rep(y as int));
    let m5 = mrun(m1, c1)->0;
    assert(t =~= s.take(d - 2).push(x).push(y));
    lemma_low_cells(m, s, cap, m5.mem, d - 2);
    assert(m5.mem[base + 8 * (d - 2)] == rep(t[d - 2] as int));
    assert(m5.mem[base + 8 * (d - 1)] == rep(t[d - 1] as int));
    lemma_cells_hold_from(m, s, cap, m5, t, d - 2);
}

/// Running the body of `DUP` (`src` = 0xF8) or `OVER` (0xF0) after its
/// guards: the cell at `src` is copied to a new top cell, and the depth
/// grows by one.
#[verifier::rlimit(30)]
proof fn lemma_dup_over_run(m: Mach, c: Seq<u8>, src: u8, v: int)
    requires
        m.r.len() == 16,
        src == 0xF8 || src == 0xF0,
        2 <= m.r[11] + (if src == 0xF8 { 1int } else { 0 }) < 0x4000_0000_0000_0000,
        c == [0x4Fu8, 0x8B, 0x44, 0xDD, src, 0x4F, 0x89, 0x44, 0xDD, 0x00, 0x49, 0xFF, 0xC3]@,
        m.mem.contains_key(cell_at(m, src)),
        m.mem[cell_at(m, src)] == v,
    ensures
        mrun(m, c) matches Some(m2) && m2.r[11] == m.r[11] + 1
            && m2.mem == m.mem.insert(m.r[13] + 8 * m.r[11], v),
{
    let base = m.r[13];
    let d = m.r[11];
    assert(c.take(5) =~= [0x4Fu8, 0x8B, 0x44, 0xDD, src]@);
    lemma_load(m, c, 0x44, src);
    let m3 = write(m, Place::Reg(8), v);
    let c3 = c.skip(5);
    assert(c3.take(5) =~= [0x4Fu8, 0x89, 0x44, 0xDD, 0x00]@);
    assert(cell_at(m3, 0x00) == base + 8 * d);
    lemma_store(m3, c3, 0x44, 0x00);
    let m4 = write(m3, Place::Mem(base + 8 * d), v);
    let c4 = c3.skip(5);
    assert(c4.take(3) =~= [0x49u8, 0xFF, 0xC3]@);
    lemma_step_depth(m4, c4, 0xC3);
    let m5 = write(m4, Place::Reg(11), d + 1);
    lemma_mrun_empty(m5, c4.skip(3));
}

/// The machine after `DUP` / `OVER` holds the interpreter's stack.
#[verifier::rlimit(40)]
proof fn lemma_dup_over_cells(m: Mach, s: Seq<i64>, cap: int, m5: Mach, op: Op, data: u64)
    requires
        op == Op::Dup || op == Op::Over,
        holds_stack(m, s, cap),
        s.len() >= if op == Op::Dup { 1int } else { 2 },
        m5.mem == m.mem.insert(m.r[13] + 8 * s.len(), rep(s[if op == Op::Dup { s.len() - 1 } else { s.len() - 2 }] as int)),
    ensures
        cells_hold(m5, m.r[13], interpreted(op, data, s)),
{
    let d = s.len() as int;
    let j = if op == Op::Dup { d - 1 } else { d - 2 };
    let t = interpreted(op, data, s);
    assert(t =~= s.push(s[j]));
    lemma_low_cells(m, s, cap, m5.mem, d);
    assert(m5.mem[m.r[13] + 8 * d] == rep(t[d] as int));
    lemma_cells_hold_from(m, s, cap, m5, t, d);
}

/// Running the code of `DUP` / `OVER` on a machine holding `s`.
#[verifier::rlimit(40)]
proof fn lemma_dup_over_machine(m: Mach, s: Seq<i64>, cap: int, op: Op)
    requires
        op == Op::Dup || op == Op::Over,
        holds_stack(m, s, cap),
        s.len() >= if op == Op::Dup { 1int } else { 2 },
        s.len() + 1 < cap,
    ensures
        mrun(m, shuffle_code(op)) matches Some(m5) && m5.r[11] == s.len() + 1
            && m5.mem == m.mem.insert(m.r[13] + 8 * s.len(), rep(s[if op == Op::Dup { s.len() - 1 } else { s.len() - 2 }] as int)),
{
    lemma_shuffle_start(m, s, cap, op);
    let c = shuffle_code(op);
    let d = s.len() as int;
    let base = m.r[13];
    let src: u8 = if op == Op::Dup { 0xF8 } else { 0xF0 };
    let j = if op == Op::Dup { d - 1 } else { d - 2 };
    lemma_cell(m, s, cap, j);
    let m1 = Mach { left: d, right: if op == Op::Dup { 1int } else { 2 }, ..m };
    let c1 = c.skip(10);
    assert(c1.take(10) =~= [0x4Cu8, 0x3B, 0x5B, 0x20, 0x0F, 0x8D, 0x00, 0x00, 0x00, 0x00]@);
    lemma_guard_cap(m1, c1, cap);
    let m2 = Mach { left: d, right: cap, ..m1 };
    let c2 = c1.skip(10);
    assert(c2 =~= [0x4Fu8, 0x8B, 0x44, 0xDD, src, 0x4F, 0x89, 0x44, 0xDD, 0x00, 0x49, 0xFF, 0xC3]@);
    assert(cell_at(m2, src) == base + 8 * j);
    lemma_dup_over_run(m2, c2, src, rep(s[j] as int));
}

/// The native code of `DUP` and `OVER` runs like the interpreter: on a
/// machine holding any data stack with enough values and room for one
/// more, it leaves the depth and every cell as the interpreter's step
/// leaves the stack.
pub proof fn lemma_dup_over_native(e: Emitted, op: Op, data: u64, at: usize, nops: usize, m: Mach, s: Seq<i64>, cap: int)
    requires
        op == Op::Dup || op == Op::Over,
        holds_stack(m, s, cap),
        s.len() >= if op == Op::Dup { 1int } else { 2 },
        s.len() + 1 < cap,
    ensures
        runs_like_interpreter(e, op, data, at, nops, m, s, cap),
{
    lemma_shuffle_bytes(e, op, data, at, nops);
    lemma_dup_over_machine(m, s, cap, op);
    let m5 = mrun(m, shuffle_code(op))->0;
    lemma_dup_over_cells(m, s, cap, m5, op, data);
    assert(interpreted(op, data, s).len() == s.len() + 1);
}

/// The bytes that take the top value off the stack into `rax` (ModRM
/// 0x00) or `rcx` (0x08): lower the depth, form the cell's address in
/// `r8`, load it.
pub open spec fn pop_code(modrm: u8) -> Seq<u8> {
    [0x49u8, 0x83, 0xEB, 0x01, 0x4D, 0x89, 0xD8, 0x49, 0xC1, 0xE0, 0x03, 0x4D, 0x01, 0xE8, 0x49, 0x8B, modrm]@
}

/// The bytes that push `rax`: form the address of the cell at the depth in
/// `r9`, store, raise the depth.
pub open spec fn push_rax_code() -> Seq<u8> {
    [0x4Du8, 0x89, 0xD9, 0x49, 0xC1, 0xE1, 0x03, 0x4D, 0x01, 0xE9, 0x49, 0x89, 0x01, 0x49, 0xFF, 0xC3]@
}

/// Registers and memory of `m` lay out a stack: the depth and base in
/// range, the top cells addressable without overflow.
pub open spec fn stack_regs(m: Mach) -> bool {
    &&& m.r.len() == 16
    &&& forall|i: int| 0 <= i < 16 ==> 0 <= #[trigger] m.r[i] < crate::jit::x86::m64()
    &&& m.r[13] + 8 * m.r[11] + 8 < crate::jit::x86::m64()
}

// One instruction each, decoded and run.

proof fn ins_sub_r11(m: Mach, c: Seq<u8>)
    requires m.r.len() == 16, c.len() >= 4, c.take(4) == [0x49u8, 0x83, 0xEB, 0x01]@,
    ensures mstep(m, c) == Some(MStepped { m: write(m, Place::Reg(11), rep(m.r[11] - 1)), len: 4 }),
{
    reveal(mstep);
    assert(c[0] == 0x49 && c[1] == 0x83 && c[2] == 0xEB && c[3] == 0x01);
    assert(ext(0x49, 5, 4) == 5 && ext(0x49, 3, 1) == 11);
    lemma_rep_small(1);
}

proof fn ins_mov_rr(m: Mach, c: Seq<u8>, modrm: u8, dst: int)
    requires
        m.r.len() == 16,
        (modrm == 0xD8 && dst == 8) || (modrm == 0xD9 && dst == 9),
        c.len() >= 3,
        c.take(3) == [0x4Du8, 0x89, modrm]@,
    ensures mstep(m, c) == Some(MStepped { m: write(m, Place::Reg(dst), m.r[11]), len: 3 }),
{
    reveal(mstep);
    assert(c[0] == 0x4D && c[1] == 0x89 && c[2] == modrm);
    assert(ext(0x4D, 3, 4) == 11 && ext(0x4D, 0, 1) == 8 && ext(0x4D, 1, 1) == 9);
}

proof fn ins_shl3(m: Mach, c: Seq<u8>, modrm: u8, dst: int)
    requires
        m.r.len() == 16,
        (modrm == 0xE0 && dst == 8) || (modrm == 0xE1 && dst == 9),
        c.len() >= 4,
        c.take(4) == [0x49u8, 0xC1, modrm, 0x03]@,
    ensures mstep(m, c) == Some(MStepped { m: write(m, Place::Reg(dst), rep(m.r[dst] * 8)), len: 4 }),
{
    reveal(mstep);
    assert(c[0] == 0x49 && c[1] == 0xC1 && c[2] == modrm && c[3] == 0x03);
    assert(ext(0x49, 4, 4) == 4 && ext(0x49, 0, 1) == 8 && ext(0x49, 1, 1) == 9);
}

proof fn ins_add_base(m: Mach, c: Seq<u8>, modrm: u8, dst: int)
    requires
        m.r.len() == 16,
        (modrm == 0xE8 && dst == 8) || (modrm == 0xE9 && dst == 9),
        c.len() >= 3,
        c.take(3) == [0x4Du8, 0x01, modrm]@,
    ensures mstep(m, c) == Some(MStepped { m: write(m, Place::Reg(dst), rep(m.r[dst] + m.r[13])), len: 3 }),
{
    reveal(mstep);
    assert(c[0] == 0x4D && c[1] == 0x01 && c[2] == modrm);
    assert(ext(0x4D, 5, 4) == 13 && ext(0x4D, 0, 1) == 8 && ext(0x4D, 1, 1) == 9);
}

proof fn ins_load_r8(m: Mach, c: Seq<u8>, modrm: u8, dst: int)
    requires
        m.r.len() == 16,
        (modrm == 0x00 && dst == 0) || (modrm == 0x08 && dst == 1),
        c.len() >= 3,
        c.take(3) == [0x49u8, 0x8B, modrm]@,
        m.mem.contains_key(m.r[8]),
    ensures mstep(m, c) == Some(MStepped { m: write(m, Place::Reg(dst), m.mem[m.r[8]]), len: 3 }),
{
    reveal(mstep);
    assert(c[0] == 0x49 && c[1] == 0x8B && c[2] == modrm);
    assert(ext(0x49, 0, 4) == 0 && ext(0x49, 1, 4) == 1 && ext(0x49, 0, 1) == 8);
    assert(operands(m, 0x49, c, 2) == Some(Operands { place: Place::Mem(m.r[8]), reg: dst, len: 1 }));
}

proof fn ins_store_r9(m: Mach, c: Seq<u8>)
    requires
        m.r.len() == 16,
        c.len() >= 3,
        c.take(3) == [0x49u8, 0x89, 0x01]@,
    ensures mstep(m, c) == Some(MStepped { m: write(m, Place::Mem(m.r[9]), m.r[0]), len: 3 }),
{
    reveal(mstep);
    assert(c[0] == 0x49 && c[1] == 0x89 && c[2] == 0x01);
    assert(ext(0x49, 0, 4) == 0 && ext(0x49, 1, 1) == 9);
    assert(operands(m, 0x49, c, 2) == Some(Operands { place: Place::Mem(m.r[9]), reg: 0, len: 1 }));
}

/// Running `pop_code` on a machine with a value `v` on top: the depth
/// drops by one, `r8` holds the cell's address and `rax` / `rcx` its value.
#[verifier::rlimit(40)]
proof fn lemma_pop(m: Mach, c: Seq<u8>, modrm: u8, v: int)
    requires
        modrm == 0x00 || modrm == 0x08,
        stack_regs(m),
        m.r[11] >= 1,
        c.len() >= 17,
        c.take(17) == pop_code(modrm),
        m.mem.contains_key(m.r[13] + 8 * (m.r[11] - 1)),
        m.mem[m.r[13] + 8 * (m.r[11] - 1)] == v,
    ensures
        mrun(m, c) == mrun(
            Mach { r: m.r.update(11, m.r[11] - 1).update(8, m.r[13] + 8 * (m.r[11] - 1)).update(if modrm == 0x00 { 0int } else { 1 }, v), ..m },
            c.skip(17)),
{
    let d = m.r[11];
    let base = m.r[13];
    assert(0 <= m.r[13] && 0 <= m.r[11]);
    assert(c.take(4) =~= [0x49u8, 0x83, 0xEB, 0x01]@);
    ins_sub_r11(m, c);
    lemma_rep_small(d - 1);
    let m1 = write(m, Place::Reg(11), d - 1);
    lemma_mrun_cons(m, c, 4);
    let c1 = c.skip(4);
    assert(c1.take(3) =~= [0x4Du8, 0x89, 0xD8]@);
    ins_mov_rr(m1, c1, 0xD8, 8);
    let m2 = write(m1, Place::Reg(8), d - 1);
    lemma_mrun_cons(m1, c1, 3);
    let c2 = c1.skip(3);
    assert(c2.take(4) =~= [0x49u8, 0xC1, 0xE0, 0x03]@);
    ins_shl3(m2, c2, 0xE0, 8);
    lemma_rep_small((d - 1) * 8);
    let m3 = write(m2, Place::Reg(8), (d - 1) * 8);
    lemma_mrun_cons(m2, c2, 4);
    let c3 = c2.skip(4);
    assert(c3.take(3) =~= [0x4Du8, 0x01, 0xE8]@);
    ins_add_base(m3, c3, 0xE8, 8);
    lemma_rep_small((d - 1) * 8 + base);
    let m4 = write(m3, Place::Reg(8), base + 8 * (d - 1));
    lemma_mrun_cons(m3, c3, 3);
    let c4 = c3.skip(3);
    assert(c4.take(3) =~= [0x49u8, 0x8B, modrm]@);
    let dst = if modrm == 0x00 { 0int } else { 1 };
    ins_load_r8(m4, c4, modrm, dst);
    let m5 = write(m4, Place::Reg(dst), v);
    lemma_mrun_cons(m4, c4, 3);
    assert(c4.skip(3) =~= c.skip(17));
    assert(m5.r =~= m.r.update(11, d - 1).update(8, base + 8 * (d - 1)).update(dst, v));
}

/// Running `push_rax_code` stores `rax` in the cell at the depth and raises
/// the depth.
#[verifier::rlimit(40)]
proof fn lemma_push_rax(m: Mach, c: Seq<u8>)
    requires
        stack_regs(m),
        c == push_rax_code(),
    ensures
        mrun(m, c) matches Some(m2) && m2.r[11] == m.r[11] + 1
            && m2.mem == m.mem.insert(m.r[13] + 8 * m.r[11], m.r[0]),
{
    let d = m.r[11];
    let base = m.r[13];
    assert(0 <= m.r[0] && 0 <= m.r[13] && 0 <= m.r[11]);
    assert(c.take(3) =~= [0x4Du8, 0x89, 0xD9]@);
    ins_mov_rr(m, c, 0xD9, 9);
    let m1 = write(m, Place::Reg(9), d);
    lemma_mrun_cons(m, c, 3);
    let c1 = c.skip(3);
    assert(c1.take(4) =~= [0x49u8, 0xC1, 0xE1, 0x03]@);
    ins_shl3(m1, c1, 0xE1, 9);
    lemma_rep_small(d * 8);
    let m2 = write(m1, Place::Reg(9), d * 8);
    lemma_mrun_cons(m1, c1, 4);
    let c2 = c1.skip(4);
    assert(c2.take(3) =~= [0x4Du8, 0x01, 0xE9]@);
    ins_add_base(m2, c2, 0xE9, 9);
    lemma_rep_small(d * 8 + base);
    let m3 = write(m2, Place::Reg(9), base + 8 * d);
    lemma_mrun_cons(m2, c2, 3);
    let c3 = c2.skip(3);
    assert(c3.take(3) =~= [0x49u8, 0x89, 0x01]@);
    ins_store_r9(m3, c3);
    let m4 = write(m3, Place::Mem(base + 8 * d), m.r[0]);
    lemma_mrun_cons(m3, c3, 3);
    let c4 = c3.skip(3);
    assert(c4 =~= [0x49u8, 0xFF, 0xC3]@);
    assert(c4.take(3) =~= c4);
    lemma_step_depth(m4, c4, 0xC3);
    let m5 = write(m4, Place::Reg(11), d + 1);
    lemma_mrun_empty(m5, c4.skip(3));
}

proof fn ins_rr(m: Mach, c: Seq<u8>, op: u8)
    requires
        m.r.len() == 16,
        op == 0x01 || op == 0x29 || op == 0x89 || op == 0x39,
        c.len() >= 3,
        c.take(3) == [0x48u8, op, if op == 0x01 || op == 0x89 { 0xC8u8 } else { 0xC1u8 }]@,
    ensures
        mstep(m, c) == Some(MStepped {
            m: if op == 0x01 {
                write(m, Place::Reg(0), rep(m.r[0] + m.r[1]))
            } else if op == 0x29 {
                write(m, Place::Reg(1), rep(m.r[1] - m.r[0]))
            } else if op == 0x89 {
                write(m, Place::Reg(0), m.r[1])
            } else {
                Mach { left: m.r[1], right: m.r[0], ..m }
            },
            len: 3,
        }),
{
    reveal(mstep);
    assert(c[0] == 0x48 && c[1] == op);
    assert(ext(0x48, 1, 4) == 1 && ext(0x48, 0, 1) == 0 && ext(0x48, 0, 4) == 0 && ext(0x48, 1, 1) == 1);
}

proof fn ins_flag(m: Mach, c: Seq<u8>, cc: u8)
    requires
        m.r.len() == 16,
        cc == 0x94 || cc == 0x9C || cc == 0x9F,
        c.len() >= 3,
        c.take(3) == [0x0Fu8, cc, 0xC0]@,
        cond((cc - 0x90) as int, m.left, m.right) is Some,
    ensures
        mstep(m, c) == Some(MStepped {
            m: write(m, Place::Reg(0), (m.r[0] / 256) * 256
                + if cond((cc - 0x90) as int, m.left, m.right) == Some(true) { 1int } else { 0int }),
            len: 3,
        }),
{
    reveal(mstep);
    assert(c[0] == 0x0F && c[1] == cc && c[2] == 0xC0);
}

proof fn ins_movzx(m: Mach, c: Seq<u8>)
    requires
        m.r.len() == 16,
        c.len() >= 4,
        c.take(4) == [0x48u8, 0x0F, 0xB6, 0xC0]@,
    ensures
        mstep(m, c) == Some(MStepped { m: write(m, Place::Reg(0), m.r[0] % 256), len: 4 }),
{
    reveal(mstep);
    assert(c[0] == 0x48 && c[1] == 0x0F && c[2] == 0xB6 && c[3] == 0xC0);
    assert(ext(0x48, 0, 4) == 0 && ext(0x48, 0, 1) == 0);
    assert(operands(m, 0x48, c, 3) == Some(Operands { place: Place::Reg(0), reg: 0, len: 1 }));
}

proof fn ins_neg(m: Mach, c: Seq<u8>)
    requires
        m.r.len() == 16,
        c.len() >= 3,
        c.take(3) == [0x48u8, 0xF7, 0xD8]@,
    ensures
        mstep(m, c) == Some(MStepped { m: write(m, Place::Reg(0), rep(0 - m.r[0])), len: 3 }),
{
    reveal(mstep);
    assert(c[0] == 0x48 && c[1] == 0xF7 && c[2] == 0xD8);
    assert(ext(0x48, 3, 4) == 3 && ext(0x48, 0, 1) == 0);
}

/// The middle part of `+`, `-`, `=`, `<` and `>`.
pub open spec fn binary_core(op: Op) -> Seq<u8> {
    if op == Op::Add {
        [0x48u8, 0x01, 0xC8]@
    } else if op == Op::Sub {
        [0x48u8, 0x29, 0xC1, 0x48, 0x89, 0xC8]@
    } else {
        [0x48u8, 0x39, 0xC1, 0x0F, if op == Op::Eq { 0x94u8 } else if op == Op::Lt { 0x9Cu8 } else { 0x9Fu8 }, 0xC0,
         0x48, 0x0F, 0xB6, 0xC0, 0x48, 0xF7, 0xD8]@
    }
}

/// What the middle part leaves in `rax`, from the operands' patterns.
pub open spec fn core_value(op: Op, a: int, b: int) -> int {
    if op == Op::Add {
        rep(a + b)
    } else if op == Op::Sub {
        rep(b - a)
    } else {
        let cc = if op == Op::Eq { 4int } else if op == Op::Lt { 12 } else { 15 };
        rep(0 - if cond(cc, b, a) == Some(true) { 1int } else { 0 })
    }
}

/// Running the middle part on `rax` = `a` (top) and `rcx` = `b`: `rax`
/// ends as `core_value` says; the depth, the base and memory stay.
#[verifier::rlimit(40)]
proof fn lemma_core_run(m: Mach, c: Seq<u8>, op: Op) -> (m2: Mach)
    requires
        op == Op::Add || op == Op::Sub || op == Op::Eq || op == Op::Lt || op == Op::Gt,
        stack_regs(m),
        c.len() >= binary_core(op).len(),
        c.take(binary_core(op).len() as int) == binary_core(op),
    ensures
        mrun(m, c) == mrun(m2, c.skip(binary_core(op).len() as int)),
        m2.r[0] == core_value(op, m.r[0], m.r[1]),
        m2.r[11] == m.r[11],
        m2.r[13] == m.r[13],
        stack_regs(m2),
        m2.mem == m.mem,
{
    let a = m.r[0];
    let b = m.r[1];
    assert(0 <= a < crate::jit::x86::m64() && 0 <= b < crate::jit::x86::m64());
    if op == Op::Add {
        assert(c.take(3) =~= [0x48u8, 0x01, 0xC8]@);
        ins_rr(m, c, 0x01);
        lemma_mrun_cons(m, c, 3);
        write(m, Place::Reg(0), rep(a + b))
    } else if op == Op::Sub {
        assert(c.take(3) =~= [0x48u8, 0x29, 0xC1]@);
        ins_rr(m, c, 0x29);
        lemma_mrun_cons(m, c, 3);
        let m1 = write(m, Place::Reg(1), rep(b - a));
        let c1 = c.skip(3);
        assert(c1.take(3) =~= [0x48u8, 0x89, 0xC8]@);
        ins_rr(m1, c1, 0x89);
        lemma_mrun_cons(m1, c1, 3);
        assert(c1.skip(3) =~= c.skip(6));
        write(m1, Place::Reg(0), rep(b - a))
    } else {
        let cc: u8 = if op == Op::Eq { 0x94 } else if op == Op::Lt { 0x9C } else { 0x9F };
        assert(c.take(3) =~= [0x48u8, 0x39, 0xC1]@);
        ins_rr(m, c, 0x39);
        lemma_mrun_cons(m, c, 3);
        let m1 = Mach { left: b, right: a, ..m };
        let c1 = c.skip(3);
        assert(c1.take(3) =~= [0x0Fu8, cc, 0xC0]@);
        ins_flag(m1, c1, cc);
        lemma_mrun_cons(m1, c1, 3);
        let t: int = if cond((cc - 0x90) as int, b, a) == Some(true) { 1 } else { 0 };
        let m2 = write(m1, Place::Reg(0), (a / 256) * 256 + t);
        let c2 = c1.skip(3);
        assert(c2.take(4) =~= [0x48u8, 0x0F, 0xB6, 0xC0]@);
        ins_movzx(m2, c2);
        lemma_mrun_cons(m2, c2, 4);
        assert(((a / 256) * 256 + t) % 256 == t) by (nonlinear_arith)
            requires
                0 <= t < 256,
        ;
        let m3 = write(m2, Place::Reg(0), t);
        let c3 = c2.skip(4);
        assert(c3.take(3) =~= [0x48u8, 0xF7, 0xD8]@);
        ins_neg(m3, c3);
        lemma_mrun_cons(m3, c3, 3);
        assert(c3.skip(3) =~= c.skip(13));
        write(m3, Place::Reg(0), rep(0 - t))
    }
}

proof fn lemma_binary_bytes(e: Emitted, op: Op, data: u64, at: usize, nops: usize)
    requires
        op == Op::Add || op == Op::Sub || op == Op::Eq || op == Op::Lt || op == Op::Gt,
    ensures
        op_piece(e, op, data, at, nops) is Ok,
        piece_bytes(e, op, data, at, nops)
            == [0x49u8, 0x83, 0xFB, 0x02, 0x0F, 0x82, 0x00, 0x00, 0x00, 0x00]@ + pop_code(0x00) + pop_code(0x08)
                + binary_core(op) + push_rax_code(),
{
    assert(piece_bytes(e, op, data, at, nops)
        =~= [0x49u8, 0x83, 0xFB, 0x02, 0x0F, 0x82, 0x00, 0x00, 0x00, 0x00]@ + pop_code(0x00) + pop_code(0x08)
            + binary_core(op) + push_rax_code());
}

/// The interpreter's value for `+`, `-`, `=`, `<`, `>` has the pattern the
/// middle part computes from the operands' patterns.
proof fn lemma_core_matches(op: Op, a: i64, b: i64, depth: nat)
    requires
        op == Op::Add || op == Op::Sub || op == Op::Eq || op == Op::Lt || op == Op::Gt,
    ensures
        core_value(op, rep(a as int), rep(b as int)) == rep(results(op, 0, depth, seq![b, a])[0] as int),
{
    let m = crate::jit::x86::m64();
    lemma_rep_wrapping(b, a);
    if op == Op::Add {
        vstd::arithmetic::div_mod::lemma_add_mod_noop(a as int, b as int, m);
    } else if op == Op::Sub {
        vstd::arithmetic::div_mod::lemma_sub_mod_noop(b as int, a as int, m);
    } else {
        assert(crate::jit::x86::signed(rep(a as int)) == a);
        assert(crate::jit::x86::signed(rep(b as int)) == b);
    }
}

/// The machine after a binary operation holds the interpreter's stack.
#[verifier::rlimit(40)]
proof fn lemma_binary_cells(m: Mach, s: Seq<i64>, cap: int, m5: Mach, op: Op, data: u64, v: int)
    requires
        op == Op::Add || op == Op::Sub || op == Op::Eq || op == Op::Lt || op == Op::Gt,
        holds_stack(m, s, cap),
        s.len() >= 2,
        v == rep(interpreted(op, data, s)[s.len() - 2] as int),
        m5.mem == m.mem.insert(m.r[13] + 8 * (s.len() - 2), v),
    ensures
        cells_hold(m5, m.r[13], interpreted(op, data, s)),
{
    let d = s.len() as int;
    let t = interpreted(op, data, s);
    assert(t.len() == d - 1);
    assert forall|i: int| 0 <= i < d - 2 implies t[i] == s[i] by {}
    lemma_low_cells(m, s, cap, m5.mem, d - 2);
    lemma_cells_hold_from(m, s, cap, m5, t, d - 2);
}

/// The native code of `+`, `-`, `=`, `<` and `>` runs like the
/// interpreter: on a machine holding any data stack with two values, it
/// leaves the depth and every cell as the interpreter's step leaves the
/// stack (the sum or difference modulo 2^64, or the flag -1 / 0 of the
/// comparison of the second value with the top one).
#[verifier::rlimit(60)]
pub proof fn lemma_binary_native(e: Emitted, op: Op, data: u64, at: usize, nops: usize, m: Mach, s: Seq<i64>, cap: int)
    requires
        op == Op::Add || op == Op::Sub || op == Op::Eq || op == Op::Lt || op == Op::Gt,
        holds_stack(m, s, cap),
        s.len() >= 2,
    ensures
        runs_like_interpreter(e, op, data, at, nops, m, s, cap),
{
    lemma_binary_bytes(e, op, data, at, nops);
    let c = piece_bytes(e, op, data, at, nops);
    let d = s.len() as int;
    let base = m.r[13];
    let a = s[d - 1];
    let b = s[d - 2];
    lemma_cell(m, s, cap, d - 1);
    lemma_cell(m, s, cap, d - 2);
    assert(c.take(10) =~= [0x49u8, 0x83, 0xFB, 0x02, 0x0F, 0x82, 0x00, 0x00, 0x00, 0x00]@);
    lemma_guard_min(m, c, 2);
    let m1 = Mach { left: d, right: 2, ..m };
    let c1 = c.skip(10);
    assert(c1.take(17) =~= pop_code(0x00));
    assert(stack_regs(m1));
    lemma_pop(m1, c1, 0x00, rep(a as int));
    let m2 = Mach { r: m1.r.update(11, d - 1).update(8, base + 8 * (d - 1)).update(0, rep(a as int)), ..m1 };
    let c2 = c1.skip(17);
    assert(c2.take(17) =~= pop_code(0x08));
    assert(stack_regs(m2));
    lemma_pop(m2, c2, 0x08, rep(b as int));
    let m3 = Mach { r: m2.r.update(11, d - 2).update(8, base + 8 * (d - 2)).update(1, rep(b as int)), ..m2 };
    let c3 = c2.skip(17);
    assert(c3.take(binary_core(op).len() as int) =~= binary_core(op));
    assert(stack_regs(m3));
    let m4 = lemma_core_run(m3, c3, op);
    let c4 = c3.skip(binary_core(op).len() as int);
    assert(c4 =~= push_rax_code());
    lemma_push_rax(m4, c4);
    let m5 = mrun(m4, c4)->0;
    lemma_core_matches(op, a, b, d as nat);
    let t = interpreted(op, data, s);
    assert(s.subrange(d - 2, d) =~= seq![b, a]);
    assert(t[d - 2] == results(op, data, d as nat, seq![b, a])[0]);
    assert(results(op, data, d as nat, seq![b, a]) == results(op, 0, d as nat, seq![b, a]));
    lemma_binary_cells(m, s, cap, m5, op, data, m4.r[0]);
    assert(mrun(m, c) == Some(m5));
}

/// The eight little-endian bytes of a value decode to it.
proof fn lemma_le_value_le64(x: u64)
    ensures
        le_value(crate::jit::emit::le64(x)) == x as int,
{
    let bs = crate::jit::emit::le64(x);
    let b0 = x as u8;
    let b1 = (x >> 8u64) as u8;
    let b2 = (x >> 16u64) as u8;
    let b3 = (x >> 24u64) as u8;
    let b4 = (x >> 32u64) as u8;
    let b5 = (x >> 40u64) as u8;
    let b6 = (x >> 48u64) as u8;
    let b7 = (x >> 56u64) as u8;
    assert(bs.skip(1) =~= seq![b1, b2, b3, b4, b5, b6, b7]);
    assert(bs.skip(1).skip(1) =~= seq![b2, b3, b4, b5, b6, b7]);
    assert(bs.skip(1).skip(1).skip(1) =~= seq![b3, b4, b5, b6, b7]);
    assert(bs.skip(1).skip(1).skip(1).skip(1) =~= seq![b4, b5, b6, b7]);
    assert(bs.skip(1).skip(1).skip(1).skip(1).skip(1) =~= seq![b5, b6, b7]);
    assert(bs.skip(1).skip(1).skip(1).skip(1).skip(1).skip(1) =~= seq![b6, b7]);
    assert(bs.skip(1).skip(1).skip(1).skip(1).skip(1).skip(1).skip(1) =~= seq![b7]);
    assert(seq![b7].skip(1) =~= Seq::<u8>::empty());
    reveal_with_fuel(le_value, 10);
    assert(x == b0 as u64 + 256 * (b1 as u64 + 256 * (b2 as u64 + 256 * (b3 as u64 + 256 * (b4 as u64
        + 256 * (b5 as u64 + 256 * (b6 as u64 + 256 * (b7 as u64)))))))) by (bit_vector)
        requires
            b0 == x as u8, b1 == (x >> 8u64) as u8, b2 == (x >> 16u64) as u8, b3 == (x >> 24u64) as u8,
            b4 == (x >> 32u64) as u8, b5 == (x >> 40u64) as u8, b6 == (x >> 48u64) as u8, b7 == (x >> 56u64) as u8,
    ;
}

/// The pattern of `x as i64` is `x`.
proof fn lemma_rep_cast(x: u64)
    ensures
        rep((x as i64) as int) == x as int,
{
    let m = crate::jit::x86::m64();
    assert((x as i64) as int == x as int || (x as i64) as int == x as int - 0x1_0000_0000_0000_0000) by (bit_vector);
    lemma_rep_small(x as int);
    vstd::arithmetic::div_mod::lemma_mod_sub_multiples_vanish(x as int, m);
}

proof fn ins_mov_imm(m: Mach, c: Seq<u8>, x: u64)
    requires
        m.r.len() == 16,
        c.len() >= 10,
        c.take(10) == seq![0x48u8, 0xB8] + crate::jit::emit::le64(x),
    ensures
        mstep(m, c) == Some(MStepped { m: write(m, Place::Reg(0), x as int), len: 10 }),
{
    reveal(mstep);
    let h = seq![0x48u8, 0xB8] + crate::jit::emit::le64(x);
    assert(c[0] == c.take(10)[0] && h[0] == 0x48);
    assert(c[1] == c.take(10)[1] && h[1] == 0xB8);
    assert(ext(0x48, 0, 1) == 0);
    assert forall|j: int| 0 <= j < 8 implies #[trigger] c.subrange(2, 10)[j] == crate::jit::emit::le64(x)[j] by {
        assert(c.subrange(2, 10)[j] == c.take(10)[j + 2]);
        assert(h[j + 2] == crate::jit::emit::le64(x)[j]);
    }
    assert(c.subrange(2, 10) =~= crate::jit::emit::le64(x));
    lemma_le_value_le64(x);
}

proof fn ins_store_r8(m: Mach, c: Seq<u8>)
    requires
        m.r.len() == 16,
        c.len() >= 3,
        c.take(3) == [0x49u8, 0x89, 0x00]@,
    ensures mstep(m, c) == Some(MStepped { m: write(m, Place::Mem(m.r[8]), m.r[0]), len: 3 }),
{
    reveal(mstep);
    assert(c[0] == 0x49 && c[1] == 0x89 && c[2] == 0x00);
    assert(ext(0x49, 0, 4) == 0 && ext(0x49, 0, 1) == 8);
    assert(operands(m, 0x49, c, 2) == Some(Operands { place: Place::Mem(m.r[8]), reg: 0, len: 1 }));
}

/// Running the body of `LIT` after its guard: the value `x` is put in a new
/// top cell and the depth grows by one.
#[verifier::rlimit(40)]
proof fn lemma_push_run(m: Mach, c: Seq<u8>, x: u64)
    requires
        stack_regs(m),
        c == seq![0x48u8, 0xB8] + crate::jit::emit::le64(x)
            + [0x4Du8, 0x89, 0xD8, 0x49, 0xC1, 0xE0, 0x03, 0x4D, 0x01, 0xE8, 0x49, 0x89, 0x00, 0x49, 0xFF, 0xC3]@,
    ensures
        mrun(m, c) matches Some(m2) && m2.r[11] == m.r[11] + 1
            && m2.mem == m.mem.insert(m.r[13] + 8 * m.r[11], x as int),
{
    let d = m.r[11];
    let base = m.r[13];
    assert(0 <= m.r[13] && 0 <= m.r[11]);
    assert(c.take(10) =~= seq![0x48u8, 0xB8] + crate::jit::emit::le64(x));
    ins_mov_imm(m, c, x);
    lemma_mrun_cons(m, c, 10);
    let m0 = write(m, Place::Reg(0), x as int);
    let c0 = c.skip(10);
    assert(c0.take(3) =~= [0x4Du8, 0x89, 0xD8]@);
    ins_mov_rr(m0, c0, 0xD8, 8);
    let m1 = write(m0, Place::Reg(8), d);
    lemma_mrun_cons(m0, c0, 3);
    let c1 = c0.skip(3);
    assert(c1.take(4) =~= [0x49u8, 0xC1, 0xE0, 0x03]@);
    ins_shl3(m1, c1, 0xE0, 8);
    lemma_rep_small(d * 8);
    let m2 = write(m1, Place::Reg(8), d * 8);
    lemma_mrun_cons(m1, c1, 4);
    let c2 = c1.skip(4);
    assert(c2.take(3) =~= [0x4Du8, 0x01, 0xE8]@);
    ins_add_base(m2, c2, 0xE8, 8);
    lemma_rep_small(d * 8 + base);
    let m3 = write(m2, Place::Reg(8), base + 8 * d);
    lemma_mrun_cons(m2, c2, 3);
    let c3 = c2.skip(3);
    assert(c3.take(3) =~= [0x49u8, 0x89, 0x00]@);
    ins_store_r8(m3, c3);
    let m4 = write(m3, Place::Mem(base + 8 * d), x as int);
    lemma_mrun_cons(m3, c3, 3);
    let c4 = c3.skip(3);
    assert(c4 =~= [0x49u8, 0xFF, 0xC3]@);
    assert(c4.take(3) =~= c4);
    lemma_step_depth(m4, c4, 0xC3);
    let m5 = write(m4, Place::Reg(11), d + 1);
    lemma_mrun_empty(m5, c4.skip(3));
}

/// The native code of `LIT` runs like the interpreter: on a machine holding
/// any data stack with room for one more value, it leaves the depth and
/// every cell as the interpreter's step leaves the stack (the literal
/// pushed).
#[verifier::rlimit(40)]
pub proof fn lemma_push_native(e: Emitted, data: u64, at: usize, nops: usize, m: Mach, s: Seq<i64>, cap: int)
    requires
        holds_stack(m, s, cap),
        s.len() + 1 < cap,
    ensures
        runs_like_interpreter(e, Op::Push, data, at, nops, m, s, cap),
{
    let c = piece_bytes(e, Op::Push, data, at, nops);
    let tail = seq![0x48u8, 0xB8] + crate::jit::emit::le64(data)
        + [0x4Du8, 0x89, 0xD8, 0x49, 0xC1, 0xE0, 0x03, 0x4D, 0x01, 0xE8, 0x49, 0x89, 0x00, 0x49, 0xFF, 0xC3]@;
    assert(c =~= [0x4Cu8, 0x3B, 0x5B, 0x20, 0x0F, 0x8D, 0x00, 0x00, 0x00, 0x00]@ + tail);
    let d = s.len() as int;
    assert(0 <= m.r[13]);
    assert(c.take(10) =~= [0x4Cu8, 0x3B, 0x5B, 0x20, 0x0F, 0x8D, 0x00, 0x00, 0x00, 0x00]@);
    lemma_guard_cap(m, c, cap);
    let m1 = Mach { left: d, right: cap, ..m };
    assert(c.skip(10) =~= tail);
    assert(stack_regs(m1));
    lemma_push_run(m1, tail, data);
    let m5 = mrun(m1, tail)->0;
    lemma_rep_cast(data);
    let t = interpreted(Op::Push, data, s);
    assert(t =~= s.push(data as i64));
    lemma_low_cells(m, s, cap, m5.mem, d);
    assert(m5.mem[m.r[13] + 8 * d] == rep(t[d] as int));
    lemma_cells_hold_from(m, s, cap, m5, t, d);
}

} // verus!
