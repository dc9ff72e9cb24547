use crate::common::error::{ForthResult, ForthError, ForthErrorKind, exec_err};
use crate::common::types::{Op, ExecutionStatus, TraceEvent, decode_op};
use crate::system::system::{System, WordKind, Output};
use crate::vm::bytes::{le_i64, i64_le_bytes, lemma_le_roundtrip};
use crate::vm::memory::aligned_up;
use crate::vm::state::{Vm, Frame, CatchFrame, NestedRun, D_STACK_LIMIT};
use crate::vm::stack::R_STACK_LIMIT;
use vstd::prelude::*;

verus! {

/// The part of a machine that an instruction reads and changes.
#[verifier::ext_equal]
pub struct VmView {
    pub data: Seq<i64>,
    pub f: Seq<u64>,
    pub r: Seq<i64>,
    pub c: Seq<Frame>,
    pub lp: Seq<i64>,
    pub exc: Seq<CatchFrame>,
    pub nested: Seq<NestedRun>,
    pub ip: usize,
    pub in_tr: bool,
}

/// The part of the system that an instruction reads and changes.
#[verifier::ext_equal]
pub struct SysView {
    pub mem: Seq<u8>,
    pub here: usize,
    pub ops: Seq<u8>,
    pub cdata: Seq<u64>,
    pub trace: Seq<TraceEvent>,
    pub out: Seq<Output>,
}

/// What an instruction reads of the system and never changes.
pub struct Env {
    pub kinds: Seq<WordKind>,
    pub trace_enabled: bool,
}

/// The machine and system after an instruction, and what it reported.
#[verifier::ext_equal]
pub struct Outcome {
    pub vm: VmView,
    pub sys: SysView,
    pub res: ForthResult<ExecutionStatus>,
}

impl View for Vm {
    type V = VmView;

    open spec fn view(&self) -> VmView {
        VmView {
            data: self.data(),
            f: self.f_stack@,
            r: self.r_stack@,
            c: self.c_stack@,
            lp: self.loop_stack@,
            exc: self.exception_stack@,
            nested: self.nested@,
            ip: self.ip,
            in_tr: self.in_tr,
        }
    }
}

impl System {
    /// The part of the system that instructions change.
    pub open spec fn sv(&self) -> SysView {
        SysView {
            mem: self.memory.bytes(),
            here: self.memory.here,
            ops: self.code.ops@,
            cdata: self.code.data@,
            trace: self.runtime_trace@,
            out: self.output@,
        }
    }

    /// The part of the system that instructions read only.
    pub open spec fn env(&self) -> Env {
        Env {
            kinds: self.dict.entries@.map_values(|e: crate::system::system::WordEntry| e.kind),
            trace_enabled: self.trace_enabled,
        }
    }

    /// Everything but the parts that instructions change is the same.
    pub open spec fn same_outside(&self, other: &System) -> bool {
        &&& self.compiling == other.compiling
        &&& self.dict == other.dict
        &&& self.tr_code == other.tr_code
        &&& self.next_file_id == other.next_file_id
        &&& self.optimizer == other.optimizer
        &&& self.jit == other.jit
        &&& self.base == other.base
        &&& self.trace_enabled == other.trace_enabled
        &&& self.paranoid_mode == other.paranoid_mode
        &&& self.jit_hits == other.jit_hits
        &&& self.jit_poisoned == other.jit_poisoned
        &&& self.jit_rollbacks == other.jit_rollbacks
        &&& self.virtual_time == other.virtual_time
        &&& self.seed == other.seed
        &&& self.control_stack == other.control_stack
    }
}

/// The value `k` places below the top of `d`.
pub open spec fn top(d: Seq<i64>, k: int) -> i64 {
    d[d.len() - 1 - k]
}

/// `b` modulo `a` as `i64::wrapping_rem` computes it (`a` nonzero).
pub open spec fn wrap_rem(b: i64, a: i64) -> i64 {
    match b.checked_rem(a) {
        Some(x) => x,
        None => 0,
    }
}

/// `b` divided by `a` as `i64::wrapping_div` computes it (`a` nonzero).
pub open spec fn wrap_div(b: i64, a: i64) -> i64 {
    match b.checked_div(a) {
        Some(x) => x,
        None => i64::MIN,
    }
}

/// A Forth flag: all bits set for true.
pub open spec fn flag(b: bool) -> i64 {
    if b {
        -1i64
    } else {
        0i64
    }
}

/// The shift count an instruction uses: the popped count as a `u32`, at
/// most 63.
pub open spec fn shift_count(n: i64) -> u32 {
    if (n as u32) < 63 {
        n as u32
    } else {
        63
    }
}

/// The address a relative jump by `data` from `ip` goes to.
pub open spec fn jump_target(ip: usize, data: u64) -> usize {
    ((ip as i64) + (data as i64)) as usize
}

/// The relative jump by `data` from `ip` does not overflow an `i64`.
pub open spec fn jump_fits(ip: usize, data: u64) -> bool {
    i64::MIN <= (ip as i64) + (data as i64) <= i64::MAX
}

/// The instructions that only take values from the data stack and put
/// values back.
pub open spec fn is_data_op(op: Op) -> bool {
    match op {
        Op::Push | Op::BL | Op::Depth | Op::Add | Op::Sub | Op::Mul | Op::Dup | Op::Drop
        | Op::Swap | Op::Over | Op::Rot | Op::Nip | Op::Tuck | Op::Drop2 | Op::Dup2 | Op::Inc
        | Op::Dec | Op::Square | Op::IsZero | Op::Abs | Op::Negate | Op::Invert | Op::Max
        | Op::Min | Op::And | Op::Or | Op::Xor | Op::Eq | Op::Lt | Op::Gt | Op::LShift
        | Op::RShift => true,
        _ => false,
    }
}

/// How many values a data-stack instruction takes.
pub open spec fn arity(op: Op) -> nat {
    match op {
        Op::Push | Op::BL | Op::Depth => 0,
        Op::Dup | Op::Drop | Op::Inc | Op::Dec | Op::Square | Op::IsZero | Op::Abs
        | Op::Negate | Op::Invert => 1,
        Op::Rot => 3,
        _ => 2,
    }
}

/// What a data-stack instruction puts back, given the values it took
/// (`p`, deepest first) and the depth before it ran.
pub open spec fn results(op: Op, data: u64, depth: nat, p: Seq<i64>) -> Seq<i64> {
    let a = p.last();
    let b = p[p.len() - 2];
    let c = p[p.len() - 3];
    match op {
        Op::Push => seq![data as i64],
        Op::BL => seq![32i64],
        Op::Depth => seq![depth as i64],
        Op::Add => seq![b.wrapping_add(a)],
        Op::Sub => seq![b.wrapping_sub(a)],
        Op::Mul => seq![b.wrapping_mul(a)],
        Op::Dup => seq![a, a],
        Op::Drop => seq![],
        Op::Swap => seq![a, b],
        Op::Over => seq![b, a, b],
        Op::Rot => seq![b, a, c],
        Op::Nip => seq![a],
        Op::Tuck => seq![a, b, a],
        Op::Drop2 => seq![],
        Op::Dup2 => seq![b, a, b, a],
        Op::Inc => seq![a.wrapping_add(1)],
        Op::Dec => seq![a.wrapping_sub(1)],
        Op::Square => seq![a.wrapping_mul(a)],
        Op::IsZero => seq![flag(a == 0)],
        Op::Abs => seq![(if a < 0 { -a } else { a as int }) as i64],
        Op::Negate => seq![0i64.wrapping_sub(a)],
        Op::Invert => seq![!a],
        Op::Max => seq![if a >= b { a } else { b }],
        Op::Min => seq![if a <= b { a } else { b }],
        Op::And => seq![b & a],
        Op::Or => seq![b | a],
        Op::Xor => seq![b ^ a],
        Op::Eq => seq![flag(b == a)],
        Op::Lt => seq![flag(b < a)],
        Op::Gt => seq![flag(b > a)],
        Op::LShift => seq![b << shift_count(a)],
        Op::RShift => seq![((b as u64) >> shift_count(a)) as i64],
        _ => seq![],
    }
}

/// The data stack after pushing `vals` one by one onto `d`, stopping at
/// the first that does not fit.
pub open spec fn push_seq(d: Seq<i64>, vals: Seq<i64>) -> Seq<i64> {
    if d.len() + vals.len() <= D_STACK_LIMIT {
        d + vals
    } else {
        d + vals.take(D_STACK_LIMIT - d.len())
    }
}

/// What pushing `vals` reports: `StackOverflow` when one does not fit.
pub open spec fn push_res(d: Seq<i64>, vals: Seq<i64>) -> ForthResult<ExecutionStatus> {
    if d.len() + vals.len() <= D_STACK_LIMIT {
        Ok(ExecutionStatus::Done)
    } else {
        Err(exec_err(ForthErrorKind::StackOverflow))
    }
}

/// The machine with another data stack.
pub open spec fn with_data(v: VmView, d: Seq<i64>) -> VmView {
    VmView { data: d, ..v }
}

/// Finished normally.
pub open spec fn done(v: VmView, s: SysView) -> Outcome {
    Outcome { vm: v, sys: s, res: Ok(ExecutionStatus::Done) }
}

/// Failed with `kind`.
pub open spec fn failed(v: VmView, s: SysView, kind: ForthErrorKind) -> Outcome {
    Outcome { vm: v, sys: s, res: Err(exec_err(kind)) }
}

/// Pushes `vals` onto the data stack.
pub open spec fn pushed(v: VmView, s: SysView, vals: Seq<i64>) -> Outcome {
    Outcome { vm: with_data(v, push_seq(v.data, vals)), sys: s, res: push_res(v.data, vals) }
}

/// Takes `n` values off the data stack: `StackUnderflow`, with the stack
/// emptied, when there are fewer.
pub open spec fn underflow(v: VmView, s: SysView) -> Outcome {
    failed(with_data(v, Seq::empty()), s, ForthErrorKind::StackUnderflow)
}

/// The data stack without its top `n` values.
pub open spec fn dropped(v: VmView, n: int) -> VmView {
    with_data(v, v.data.take(v.data.len() - n))
}

/// The outcome of a data-stack instruction.
pub open spec fn data_step(v: VmView, s: SysView, op: Op, data: u64) -> Outcome {
    let n = arity(op);
    if v.data.len() < n {
        underflow(v, s)
    } else {
        let p = v.data.subrange(v.data.len() - n, v.data.len() as int);
        pushed(dropped(v, n as int), s, results(op, data, v.data.len(), p))
    }
}

/// The outcome of `MOD`, `/MOD` and `/`.
pub open spec fn div_step(v: VmView, s: SysView, op: Op) -> Outcome {
    let d = v.data;
    let a = top(d, 0);
    let b = top(d, 1);
    match op {
        Op::Mod => if d.len() < 2 {
            underflow(v, s)
        } else if a == 0 {
            failed(dropped(v, 2), s, ForthErrorKind::DivideByZero)
        } else {
            pushed(dropped(v, 2), s, seq![wrap_rem(b, a)])
        },
        _ => if d.len() < 1 {
            underflow(v, s)
        } else if a == 0 {
            failed(dropped(v, 1), s, ForthErrorKind::DivideByZero)
        } else if d.len() < 2 {
            underflow(v, s)
        } else if op == Op::DivMod {
            pushed(dropped(v, 2), s, seq![wrap_rem(b, a), wrap_div(b, a)])
        } else {
            pushed(dropped(v, 2), s, seq![wrap_div(b, a)])
        },
    }
}

/// Memory after storing `val` little-endian at `a`.
pub open spec fn stored(mem: Seq<u8>, a: int, val: i64) -> Seq<u8> {
    mem.subrange(0, a) + i64_le_bytes(val) + mem.subrange(a + 8, mem.len() as int)
}

/// A memory error of the execution phase.
pub open spec fn mem_oob(addr: usize, mem: Seq<u8>) -> ForthErrorKind {
    ForthErrorKind::MemoryOOB { addr, limit: mem.len() as usize }
}

/// The outcome of the memory and compilation instructions.
pub open spec fn mem_step(v: VmView, s: SysView, op: Op) -> Outcome {
    let d = v.data;
    let x = top(d, 0);
    let y = top(d, 1);
    let a = x as usize;
    match op {
        Op::Here => pushed(v, s, seq![s.here as i64]),
        Op::Fetch => if d.len() < 1 {
            underflow(v, s)
        } else if a + 8 > s.mem.len() {
            failed(dropped(v, 1), s, mem_oob(a, s.mem))
        } else {
            pushed(dropped(v, 1), s, seq![le_i64(s.mem.subrange(a as int, a + 8))])
        },
        Op::FetchC => if d.len() < 1 {
            underflow(v, s)
        } else if a >= s.mem.len() {
            failed(dropped(v, 1), s, mem_oob(a, s.mem))
        } else {
            pushed(dropped(v, 1), s, seq![s.mem[a as int] as i64])
        },
        Op::Store => if d.len() < 2 {
            underflow(v, s)
        } else if a + 8 > s.mem.len() {
            failed(dropped(v, 2), s, mem_oob(a, s.mem))
        } else {
            done(dropped(v, 2), SysView { mem: stored(s.mem, a as int, y), ..s })
        },
        Op::StoreC => if d.len() < 2 {
            underflow(v, s)
        } else if a >= s.mem.len() {
            failed(dropped(v, 2), s, mem_oob(a, s.mem))
        } else {
            done(dropped(v, 2), SysView { mem: s.mem.update(a as int, y as u8), ..s })
        },
        Op::Allot => if d.len() < 1 {
            underflow(v, s)
        } else if aligned_up(s.here) + a > s.mem.len() {
            failed(dropped(v, 1), s, mem_oob((aligned_up(s.here) + a) as usize, s.mem))
        } else {
            done(dropped(v, 1), SysView { here: (aligned_up(s.here) + a) as usize, ..s })
        },
        Op::Comma => if d.len() < 1 {
            underflow(v, s)
        } else if s.here + 8 > s.mem.len() {
            failed(dropped(v, 1), s, mem_oob(s.here, s.mem))
        } else {
            let s1 = SysView { mem: stored(s.mem, s.here as int, x), ..s };
            if aligned_up(s.here) + 8 > s.mem.len() {
                failed(dropped(v, 1), s1, mem_oob((aligned_up(s.here) + 8) as usize, s.mem))
            } else {
                done(dropped(v, 1), SysView { here: (aligned_up(s.here) + 8) as usize, ..s1 })
            }
        },
        _ => if d.len() < 1 {
            underflow(v, s)
        } else {
            done(dropped(v, 1), SysView { ops: s.ops.push(Op::Call.code()), cdata: s.cdata.push(x as u64), ..s })
        },
    }
}

/// Jumps to `jump_target(v.ip, data)`, or fails when that is not an
/// address of code.
pub open spec fn jumped(v: VmView, s: SysView, data: u64) -> Outcome {
    let t = jump_target(v.ip, data);
    if t >= s.ops.len() {
        failed(v, s, ForthErrorKind::JumpOutOfBounds { target: t })
    } else {
        done(VmView { ip: t, ..v }, s)
    }
}

/// The trace with `e` recorded, when tracing is on.
pub open spec fn traced(s: SysView, env: Env, e: TraceEvent) -> SysView {
    if env.trace_enabled {
        SysView { trace: s.trace.push(e), ..s }
    } else {
        s
    }
}

/// The outcome of the control-flow instructions.
pub open spec fn control_step(v: VmView, s: SysView, env: Env, op: Op, data: u64) -> Outcome {
    let d = v.data;
    let x = top(d, 0);
    let y = top(d, 1);
    let n = v.lp.len();
    match op {
        Op::Jump => jumped(v, s, data),
        Op::JZ => if d.len() < 1 {
            underflow(v, s)
        } else if x == 0 {
            jumped(dropped(v, 1), s, data)
        } else {
            done(dropped(v, 1), s)
        },
        Op::Call => {
            let w = data as usize;
            let ip = match env.kinds[w as int] {
                WordKind::Defined(t) => t,
                _ => v.ip,
            };
            done(
                VmView { c: v.c.push(Frame { ret_ip: v.ip, word_idx: w, ret_in_tr: v.in_tr }), ip, ..v },
                traced(s, env, TraceEvent::EnterWord(w)),
            )
        },
        Op::Ret => {
            let s1 = traced(s, env, TraceEvent::ExitWord);
            if v.c.len() > 0 {
                let f = v.c.last();
                done(VmView { c: v.c.drop_last(), ip: f.ret_ip, in_tr: f.ret_in_tr, ..v }, s1)
            } else {
                Outcome { vm: v, sys: s1, res: Ok(ExecutionStatus::Stop) }
            }
        },
        Op::Do => if d.len() < 2 {
            underflow(v, s)
        } else {
            done(VmView { lp: v.lp.push(y).push(x), ..dropped(v, 2) }, s)
        },
        Op::Loop => if n < 2 {
            failed(v, s, ForthErrorKind::StackUnderflow)
        } else {
            let current = v.lp.last().wrapping_add(1);
            if current < v.lp[n - 2] {
                done(VmView { lp: v.lp.update(n - 1, current), ip: jump_target(v.ip, data), ..v }, s)
            } else {
                done(VmView { lp: v.lp.take(n - 2), ..v }, s)
            }
        },
        Op::PLoop => if d.len() < 1 {
            underflow(v, s)
        } else if n < 2 {
            failed(dropped(v, 1), s, ForthErrorKind::StackUnderflow)
        } else {
            let v1 = dropped(v, 1);
            let next = v.lp.last().wrapping_add(x);
            let limit = v.lp[n - 2];
            if (if x >= 0 { next < limit } else { next >= limit }) {
                done(VmView { lp: v.lp.update(n - 1, next), ip: jump_target(v.ip, data), ..v1 }, s)
            } else {
                done(VmView { lp: v.lp.take(n - 2), ..v1 }, s)
            }
        },
        Op::I => if n < 1 {
            failed(v, s, ForthErrorKind::StackUnderflow)
        } else {
            pushed(v, s, seq![v.lp.last()])
        },
        _ => if n < 4 {
            failed(v, s, ForthErrorKind::StackUnderflow)
        } else {
            pushed(v, s, seq![v.lp[n - 3]])
        },
    }
}

/// The data stack with the value `n` places below the top moved to the
/// top (`ROLL`), `n` being less than its depth.
pub open spec fn rolled(d: Seq<i64>, n: int) -> Seq<i64> {
    let t = d.len() - 1 - n;
    d.take(t) + d.subrange(t + 1, d.len() as int) + seq![d[t]]
}

/// The outcome of the remaining instructions but `EXECUTE`.
pub open spec fn misc_step(v: VmView, s: SysView, op: Op, data: u64) -> Outcome {
    let d = v.data;
    let x = top(d, 0);
    let v1 = dropped(v, 1);
    match op {
        Op::PushF => if v.f.len() >= R_STACK_LIMIT {
            failed(v, s, ForthErrorKind::StackOverflow)
        } else {
            done(VmView { f: v.f.push(data), ..v }, s)
        },
        Op::ToR => if d.len() < 1 {
            underflow(v, s)
        } else if v.r.len() >= R_STACK_LIMIT {
            failed(v1, s, ForthErrorKind::ReturnStackOverflow)
        } else {
            done(VmView { r: v.r.push(x), ..v1 }, s)
        },
        Op::FromR => if v.r.len() == 0 {
            failed(v, s, ForthErrorKind::ReturnStackUnderflow)
        } else {
            pushed(VmView { r: v.r.drop_last(), ..v }, s, seq![v.r.last()])
        },
        Op::RFetch => if v.r.len() == 0 {
            failed(v, s, ForthErrorKind::ReturnStackUnderflow)
        } else {
            pushed(v, s, seq![v.r.last()])
        },
        Op::Pick => if d.len() < 1 {
            underflow(v, s)
        } else if x as usize >= d.len() - 1 {
            failed(v1, s, ForthErrorKind::StackUnderflow)
        } else {
            pushed(v1, s, seq![top(v1.data, x as usize as int)])
        },
        Op::Roll => if d.len() < 1 {
            underflow(v, s)
        } else if x as usize == 0 {
            done(v1, s)
        } else if x as usize >= d.len() - 1 {
            failed(v1, s, ForthErrorKind::StackUnderflow)
        } else {
            done(with_data(v, rolled(v1.data, x as usize as int)), s)
        },
        Op::Dot => if d.len() < 1 {
            underflow(v, s)
        } else {
            done(v1, SysView { out: s.out.push(Output::Number(x)), ..s })
        },
        Op::Emit => if d.len() < 1 {
            underflow(v, s)
        } else {
            done(v1, SysView { out: s.out.push(Output::Char(x as u8)), ..s })
        },
        Op::Cr => done(v, SysView { out: s.out.push(Output::Newline), ..s }),
        Op::Yield => Outcome { vm: v, sys: s, res: Ok(ExecutionStatus::Yielded) },
        Op::Stop => Outcome { vm: v, sys: s, res: Ok(ExecutionStatus::Stop) },
        Op::Catch => done(
            VmView {
                exc: v.exc.push(CatchFrame {
                    d_depth: d.len() as usize,
                    r_depth: v.r.len() as usize,
                    c_depth: v.c.len() as usize,
                    handler_ip: v.ip,
                    in_tr: v.in_tr,
                }),
                ..v
            },
            s,
        ),
        Op::Throw => if d.len() < 1 {
            underflow(v, s)
        } else if x != 0 {
            Outcome { vm: v1, sys: s, res: Ok(ExecutionStatus::Thrown(x)) }
        } else {
            done(v1, s)
        },
        _ => done(v, s),
    }
}

/// The instructions `misc_step` describes.
pub open spec fn is_misc_op(op: Op) -> bool {
    match op {
        Op::PushF | Op::ToR | Op::FromR | Op::RFetch | Op::Pick | Op::Roll | Op::Dot | Op::Emit
        | Op::Cr | Op::Yield | Op::Stop | Op::Catch | Op::Throw => true,
        _ => false,
    }
}

/// The instructions `mem_step` describes.
pub open spec fn is_mem_op(op: Op) -> bool {
    match op {
        Op::Here | Op::Fetch | Op::FetchC | Op::Store | Op::StoreC | Op::Allot | Op::Comma
        | Op::CompileComma => true,
        _ => false,
    }
}

/// The instructions `control_step` describes.
pub open spec fn is_control_op(op: Op) -> bool {
    match op {
        Op::Jump | Op::JZ | Op::Call | Op::Ret | Op::Do | Op::Loop | Op::PLoop | Op::I | Op::J => true,
        _ => false,
    }
}

/// The outcome of running instruction `op` with data field `data`.
pub open spec fn step_spec(v: VmView, s: SysView, env: Env, op: Op, data: u64) -> Outcome
    decreases v.data.len(), 0nat,
{
    if is_data_op(op) {
        data_step(v, s, op, data)
    } else if op == Op::Mod || op == Op::DivMod || op == Op::Div {
        div_step(v, s, op)
    } else if is_mem_op(op) {
        mem_step(v, s, op)
    } else if is_control_op(op) {
        control_step(v, s, env, op, data)
    } else if is_misc_op(op) {
        misc_step(v, s, op, data)
    } else if op == Op::Execute {
        if v.data.len() < 1 {
            underflow(v, s)
        } else {
            let xt = top(v.data, 0) as usize;
            let v1 = dropped(v, 1);
            if xt >= env.kinds.len() {
                failed(v1, s, ForthErrorKind::InvalidWord)
            } else {
                word_spec(v1, s, env, xt)
            }
        }
    } else {
        done(v, s)
    }
}

/// The outcome of executing word `idx`: a primitive runs its instruction
/// (an error is passed on, any status becomes `Done`); a colon definition
/// is entered as a call (a frame that returns to the current address is
/// pushed), with a nested run recorded to come back to the caller; other
/// words do nothing.
pub open spec fn word_spec(v: VmView, s: SysView, env: Env, idx: usize) -> Outcome
    decreases v.data.len(), 1nat,
{
    match env.kinds[idx as int] {
        WordKind::Primitive(c) => {
            let o = step_spec(v, s, env, decode_op(c as u8).unwrap(), 0);
            Outcome {
                res: match o.res {
                    Err(e) => Err(e),
                    Ok(_) => Ok(ExecutionStatus::Done),
                },
                ..o
            }
        },
        WordKind::Defined(addr) => done(
            VmView {
                c: v.c.push(Frame { ret_ip: v.ip, word_idx: idx, ret_in_tr: v.in_tr }),
                nested: v.nested.push(NestedRun { old_ip: v.ip, old_c_depth: (v.c.len() + 1) as usize }),
                ip: addr,
                ..v
            },
            s,
        ),
        _ => done(v, s),
    }
}

/// Running `op` does not hit one of the faults the machine does not
/// report as errors: an address or allocation size so large that the
/// arithmetic on it overflows, `ABS` of the least `i64`, a jump whose
/// target overflows an `i64`, a call of a word that does not exist, or a
/// primitive word whose code is not an instruction.
pub open spec fn step_ok(v: VmView, s: SysView, env: Env, op: Op, data: u64) -> bool
    decreases v.data.len(), 0nat,
{
    let d = v.data;
    let x = top(d, 0);
    match op {
        Op::Fetch => d.len() >= 1 ==> (x as usize) + 8 <= usize::MAX,
        Op::Store => d.len() >= 2 ==> (x as usize) + 8 <= usize::MAX,
        Op::Abs => d.len() >= 1 ==> x != i64::MIN,
        Op::Allot => d.len() >= 1 ==> aligned_up(s.here) + (x as usize) <= usize::MAX,
        Op::Comma => d.len() >= 1 ==> s.here + 8 <= usize::MAX && (s.here + 8 <= s.mem.len() ==> aligned_up(s.here) + 8 <= usize::MAX),
        Op::Jump => jump_fits(v.ip, data),
        Op::JZ => d.len() >= 1 && x == 0 ==> jump_fits(v.ip, data),
        Op::Loop => v.lp.len() >= 2 && v.lp.last().wrapping_add(1) < v.lp[v.lp.len() - 2] ==> jump_fits(v.ip, data),
        Op::PLoop => d.len() >= 1 && v.lp.len() >= 2 ==> {
            let next = v.lp.last().wrapping_add(x);
            let limit = v.lp[v.lp.len() - 2];
            (if x >= 0 { next < limit } else { next >= limit }) ==> jump_fits(v.ip, data)
        },
        Op::Call => (data as usize) < env.kinds.len(),
        Op::Execute => d.len() >= 1 && (x as usize) < env.kinds.len() ==> word_ok(dropped(v, 1), s, env, x as usize),
        _ => true,
    }
}

/// Executing word `idx` does not hit a fault (see `step_ok`).
pub open spec fn word_ok(v: VmView, s: SysView, env: Env, idx: usize) -> bool
    decreases v.data.len(), 1nat,
{
    match env.kinds[idx as int] {
        WordKind::Primitive(c) => decode_op(c as u8) is Some && step_ok(v, s, env, decode_op(c as u8).unwrap(), 0),
        _ => true,
    }
}

/// The outcome of one interpreter step: the instruction at `ip` is
/// decoded, recorded in the trace when tracing is on, and run with `ip`
/// already past it. Past the end of code the step reports `Stop`; an
/// undecodable byte is an `InvalidOpcode` error.
pub open spec fn tier1_spec(v: VmView, s: SysView, env: Env) -> Outcome {
    if v.ip >= s.ops.len() {
        Outcome { vm: v, sys: s, res: Ok(ExecutionStatus::Stop) }
    } else {
        match decode_op(s.ops[v.ip as int]) {
            None => failed(v, s, ForthErrorKind::InvalidOpcode),
            Some(op) => {
                let data = s.cdata[v.ip as int];
                step_spec(
                    VmView { ip: (v.ip + 1) as usize, ..v },
                    traced(s, env, TraceEvent::Op(v.ip, op, data)),
                    env,
                    op,
                    data,
                )
            },
        }
    }
}

/// One interpreter step does not hit a fault (see `step_ok`).
pub open spec fn tier1_ok(v: VmView, s: SysView, env: Env) -> bool {
    v.ip < s.ops.len() ==> match decode_op(s.ops[v.ip as int]) {
        None => true,
        Some(op) => step_ok(VmView { ip: (v.ip + 1) as usize, ..v }, s, env, op, s.cdata[v.ip as int]),
    }
}

/// The call stack with the frame a nested run pushed (the `depth`-th) and
/// those above it removed, if they are still there.
pub open spec fn cut_frames(c: Seq<Frame>, depth: usize) -> Seq<Frame> {
    if depth > 0 && c.len() >= depth {
        c.take(depth - 1)
    } else {
        c
    }
}

/// The machine after the step that reported `st` ends the nested runs it
/// finished, innermost first: a run ends when its body returns from the
/// frame it was entered with, or stops; the machine then resumes where the
/// run was started with the caller's call stack (the run's frame removed if
/// a stop left it), and the run's caller sees `Done`. While a run goes on,
/// everything the step reports is `Done` to the outside (a yield or throw
/// inside it is passed over, as the nested loop does).
pub open spec fn settled(v: VmView, st: ExecutionStatus) -> (VmView, ExecutionStatus)
    decreases v.nested.len(),
{
    if v.nested.len() == 0 {
        (v, st)
    } else {
        let run = v.nested.last();
        let finished = match st {
            ExecutionStatus::Done => v.c.len() < run.old_c_depth,
            ExecutionStatus::Stop => true,
            _ => false,
        };
        if finished {
            settled(VmView { nested: v.nested.drop_last(), ip: run.old_ip, c: cut_frames(v.c, run.old_c_depth), ..v }, ExecutionStatus::Done)
        } else {
            (v, ExecutionStatus::Done)
        }
    }
}

/// `s` cut to `n` items, or grown to `n` with copies of `fill`.
pub open spec fn resized<T>(s: Seq<T>, n: nat, fill: T) -> Seq<T> {
    if n <= s.len() {
        s.take(n as int)
    } else {
        s + Seq::new((n - s.len()) as nat, |i: int| fill)
    }
}

/// Whether an instruction faults depends on memory only through its size
/// and the allocation pointer.
pub proof fn lemma_step_ok_sys(v: VmView, s: SysView, s2: SysView, env: Env, op: Op, data: u64)
    requires
        s.mem.len() == s2.mem.len(),
        s.here == s2.here,
    ensures
        step_ok(v, s, env, op, data) == step_ok(v, s2, env, op, data),
    decreases v.data.len(), 0nat,
{
    if op == Op::Execute && v.data.len() >= 1 && (top(v.data, 0) as usize) < env.kinds.len() {
        let w = dropped(v, 1);
        let idx = top(v.data, 0) as usize;
        if let WordKind::Primitive(c) = env.kinds[idx as int] {
            if decode_op(c as u8) is Some {
                lemma_step_ok_sys(w, s, s2, env, decode_op(c as u8).unwrap(), 0);
            }
        }
    }
}

/// Pushing a literal and dropping it gives the machine back, when the
/// data stack has room.
pub proof fn lemma_push_then_drop(v: VmView, s: SysView, env: Env, x: u64)
    requires
        v.data.len() < D_STACK_LIMIT,
    ensures
        ({
            let o1 = step_spec(v, s, env, Op::Push, x);
            let o2 = step_spec(o1.vm, o1.sys, env, Op::Drop, 0);
            &&& o1.res == Ok::<ExecutionStatus, ForthError>(ExecutionStatus::Done)
            &&& o2.res == Ok::<ExecutionStatus, ForthError>(ExecutionStatus::Done)
            &&& o2.vm == v
            &&& o2.sys == s
        }),
{
    let o1 = step_spec(v, s, env, Op::Push, x);
    assert(o1.vm.data =~= v.data.push(x as i64));
    let o2 = step_spec(o1.vm, o1.sys, env, Op::Drop, 0);
    assert(o2.vm.data =~= v.data);
    assert(o2.vm =~= v);
}

/// `SWAP SWAP` gives the machine back, when the data stack holds two values.
pub proof fn lemma_swap_swap(v: VmView, s: SysView, env: Env)
    requires
        2 <= v.data.len() <= D_STACK_LIMIT,
    ensures
        ({
            let o1 = step_spec(v, s, env, Op::Swap, 0);
            let o2 = step_spec(o1.vm, o1.sys, env, Op::Swap, 0);
            &&& o2.res == Ok::<ExecutionStatus, ForthError>(ExecutionStatus::Done)
            &&& o2.vm == v
            &&& o2.sys == s
        }),
{
    let n = v.data.len();
    let o1 = step_spec(v, s, env, Op::Swap, 0);
    let p = v.data.subrange(n - 2, n as int);
    assert(o1.vm.data =~= v.data.take(n - 2) + seq![p.last(), p[0]]);
    let o2 = step_spec(o1.vm, o1.sys, env, Op::Swap, 0);
    assert(o2.vm.data =~= v.data);
    assert(o2.vm =~= v);
}

/// `DUP DROP` gives the machine back, when the data stack holds a value
/// and has room for one more.
pub proof fn lemma_dup_drop(v: VmView, s: SysView, env: Env)
    requires
        1 <= v.data.len() < D_STACK_LIMIT,
    ensures
        ({
            let o1 = step_spec(v, s, env, Op::Dup, 0);
            let o2 = step_spec(o1.vm, o1.sys, env, Op::Drop, 0);
            &&& o2.res == Ok::<ExecutionStatus, ForthError>(ExecutionStatus::Done)
            &&& o2.vm == v
            &&& o2.sys == s
        }),
{
    let n = v.data.len();
    let o1 = step_spec(v, s, env, Op::Dup, 0);
    assert(o1.vm.data =~= v.data.push(v.data.last()));
    let o2 = step_spec(o1.vm, o1.sys, env, Op::Drop, 0);
    assert(o2.vm.data =~= v.data);
    assert(o2.vm =~= v);
}

/// Rolling a stack back to an earlier length undoes what was pushed on it
/// since: cutting a stack that grew from `s` back to the length of `s`
/// gives `s`.
pub proof fn lemma_rollback_undoes_growth<T>(s: Seq<T>, grown: Seq<T>, fill: T)
    requires
        s.len() <= grown.len(),
        grown.take(s.len() as int) == s,
    ensures
        resized(grown, s.len(), fill) == s,
{
}

/// A step that reports `Done` with no nested run in progress reports it
/// unchanged, and the machine is left as it was.
pub proof fn lemma_settle_top_level(v: VmView, st: ExecutionStatus)
    requires
        v.nested.len() == 0,
    ensures
        settled(v, st) == (v, st),
{
}

/// After a nested run is started (by executing a colon definition), a
/// step that returns below its call depth ends it: the machine resumes at
/// the address the run was started from, and the caller sees `Done`.
pub proof fn lemma_nested_return(v: VmView, run: NestedRun)
    requires
        v.nested.len() == 1,
        v.nested[0] == run,
        v.c.len() < run.old_c_depth,
    ensures
        settled(v, ExecutionStatus::Done).0.ip == run.old_ip,
        settled(v, ExecutionStatus::Done).0.nested.len() == 0,
        settled(v, ExecutionStatus::Done).1 == ExecutionStatus::Done,
{
    let v1 = VmView { nested: v.nested.drop_last(), ip: run.old_ip, c: cut_frames(v.c, run.old_c_depth), ..v };
    assert(v.nested.last() == run);
    assert(v1.nested.len() == 0);
    assert(settled(v1, ExecutionStatus::Done) == (v1, ExecutionStatus::Done));
    assert(settled(v, ExecutionStatus::Done) == settled(v1, ExecutionStatus::Done));
}

/// A colon definition entered through `EXECUTE` returns to its caller:
/// once its body has returned from the frame the entry pushed (the call
/// stack is the caller's again), the step settles at the caller's address
/// with the caller's call stack and no nested run left, reporting `Done`.
pub proof fn lemma_execute_returns(v0: VmView, s: SysView, env: Env, idx: usize, addr: usize, v: VmView)
    requires
        v0.nested.len() == 0,
        v0.c.len() < usize::MAX,
        0 <= idx < env.kinds.len(),
        env.kinds[idx as int] == WordKind::Defined(addr),
        v.nested == word_spec(v0, s, env, idx).vm.nested,
        v.c == v0.c,
    ensures
        settled(v, ExecutionStatus::Done).0.ip == v0.ip,
        settled(v, ExecutionStatus::Done).0.c == v0.c,
        settled(v, ExecutionStatus::Done).0.nested.len() == 0,
        settled(v, ExecutionStatus::Done).1 == ExecutionStatus::Done,
{
    let run = NestedRun { old_ip: v0.ip, old_c_depth: (v0.c.len() + 1) as usize };
    assert(v.nested =~= seq![run]);
    lemma_nested_return(v, run);
    let v1 = VmView { nested: v.nested.drop_last(), ip: run.old_ip, c: cut_frames(v.c, run.old_c_depth), ..v };
    assert(settled(v, ExecutionStatus::Done) == settled(v1, ExecutionStatus::Done));
    assert(v1.nested.len() == 0);
}

/// A store and then a fetch at the same address give back the stored value:
/// storing `val` at `a`, where a whole cell fits in memory, takes both
/// values and succeeds, and fetching from `a` afterwards puts `val` back.
/// (A memory is never longer than `isize::MAX` bytes: `Memory::len`.)
pub proof fn lemma_store_then_fetch(v: VmView, s: SysView, env: Env, val: i64, a: i64)
    requires
        s.mem.len() <= isize::MAX,
        0 <= a,
        a + 8 <= s.mem.len(),
        v.data.len() >= 2,
        top(v.data, 0) == a,
        top(v.data, 1) == val,
        v.data.len() <= D_STACK_LIMIT,
    ensures
        step_spec(v, s, env, Op::Store, 0).res == Ok::<ExecutionStatus, ForthError>(ExecutionStatus::Done),
        step_spec(v, s, env, Op::Store, 0).vm.data == v.data.take(v.data.len() - 2),
        ({
            let o1 = step_spec(v, s, env, Op::Store, 0);
            let o2 = step_spec(with_data(o1.vm, o1.vm.data.push(a)), o1.sys, env, Op::Fetch, 0);
            &&& o2.res == Ok::<ExecutionStatus, ForthError>(ExecutionStatus::Done)
            &&& o2.vm.data == o1.vm.data.push(val)
        }),
{
    let o1 = step_spec(v, s, env, Op::Store, 0);
    assert((a as usize) as int == a);
    let mem2 = stored(s.mem, a as int, val);
    assert(o1.sys.mem == mem2);
    assert(mem2.subrange(a as int, a + 8) =~= i64_le_bytes(val));
    lemma_le_roundtrip(val);
    let v2 = with_data(o1.vm, o1.vm.data.push(a));
    assert(v2.data.take(v2.data.len() - 1) =~= o1.vm.data);
    let o2 = step_spec(v2, o1.sys, env, Op::Fetch, 0);
    assert(o2.vm.data =~= o1.vm.data.push(val));
}

} // verus!
