use crate::common::error::{ForthResult, ForthError, ForthErrorKind, ForthPhase, exec_err};
use crate::common::types::{Op, ExecutionStatus, TraceEvent, decode_op};
use crate::system::system::{System, WordKind, Output};
use crate::vm::bytes::{mmap_read_i64, le_i64};
use crate::vm::memory::aligned_up;
use crate::vm::semantics::{
    VmView, SysView, Env, Outcome, step_spec, step_ok, word_spec, word_ok, is_data_op, arity, results,
    push_seq, push_res, with_data, dropped, top, wrap_rem, wrap_div, stored, jump_target, jump_fits,
    rolled, jumped, tier1_spec, tier1_ok, settled, resized, lemma_step_ok_sys, pushed, is_mem_op, is_control_op, is_misc_op, div_step, mem_step, control_step, misc_step, data_step,
};
use crate::vm::state::{Vm, Frame, CatchFrame, NestedRun, D_CELLS_OFFSET, D_STACK_LIMIT, D_STACK_MAP_SIZE};
use crate::vm::stack::R_STACK_LIMIT;
use vstd::prelude::*;

verus! {

impl Vm {
    /// The bytes of the stack mapping outside the cells (guard pages and
    /// canaries) are those of `other`.
    pub open spec fn guards_same(&self, other: &Vm) -> bool {
        &&& self.stack_bytes().subrange(0, D_CELLS_OFFSET as int) == other.stack_bytes().subrange(0, D_CELLS_OFFSET as int)
        &&& self.stack_bytes().subrange(D_CELLS_OFFSET + 8 * D_STACK_LIMIT, D_STACK_MAP_SIZE as int)
            == other.stack_bytes().subrange(D_CELLS_OFFSET + 8 * D_STACK_LIMIT, D_STACK_MAP_SIZE as int)
    }
}

/// Machine `post` in system `spost` is what outcome `o` describes, reached
/// from machine `pre` in system `spre`; nothing else changed.
pub open spec fn reached(pre: Vm, post: Vm, spre: System, spost: System, o: Outcome) -> bool {
    &&& post.wf()
    &&& post@ == o.vm
    &&& spost.sv() == o.sys
    &&& post.path_trace == pre.path_trace
    &&& post.guards_same(&pre)
    &&& spost.same_outside(&spre)
    &&& spost.code.wf()
}

/// Running `op` took machine `pre` in system `spre` to machine `post` in
/// system `spost` and reported `r`, as `step_spec` says; nothing else
/// changed.
pub open spec fn stepped(
    pre: Vm,
    post: Vm,
    spre: System,
    spost: System,
    op: Op,
    data: u64,
    r: ForthResult<ExecutionStatus>,
) -> bool {
    let o = step_spec(pre@, spre.sv(), spre.env(), op, data);
    &&& reached(pre, post, spre, spost, o)
    &&& r == o.res
}

/// The number of values a data-stack instruction takes.
fn arity_of(op: Op) -> (n: usize)
    ensures
        n == arity(op),
{
    match op {
        Op::Push | Op::BL | Op::Depth => 0,
        Op::Dup | Op::Drop | Op::Inc | Op::Dec | Op::Square | Op::IsZero | Op::Abs | Op::Negate
        | Op::Invert => 1,
        Op::Rot => 3,
        _ => 2,
    }
}

/// The values a data-stack instruction puts back, given those it took.
fn data_results(op: Op, data: u64, depth: usize, p: &Vec<i64>) -> (r: Vec<i64>)
    requires
        is_data_op(op),
        p@.len() == arity(op),
        op == Op::Abs ==> p@.last() != i64::MIN,
    ensures
        r@ == results(op, data, depth as nat, p@),
{
    let n = p.len();
    let a = if n >= 1 { p[n - 1] } else { 0 };
    let b = if n >= 2 { p[n - 2] } else { 0 };
    let c = if n >= 3 { p[n - 3] } else { 0 };
    let r = match op {
        Op::Push => vec![data as i64],
        Op::BL => vec![32i64],
        Op::Depth => vec![depth as i64],
        Op::Add => vec![b.wrapping_add(a)],
        Op::Sub => vec![b.wrapping_sub(a)],
        Op::Mul => vec![b.wrapping_mul(a)],
        Op::Dup => vec![a, a],
        Op::Drop => vec![],
        Op::Swap => vec![a, b],
        Op::Over => vec![b, a, b],
        Op::Rot => vec![b, a, c],
        Op::Nip => vec![a],
        Op::Tuck => vec![a, b, a],
        Op::Drop2 => vec![],
        Op::Dup2 => vec![b, a, b, a],
        Op::Inc => vec![a.wrapping_add(1)],
        Op::Dec => vec![a.wrapping_sub(1)],
        Op::Square => vec![a.wrapping_mul(a)],
        Op::IsZero => vec![if a == 0 { -1i64 } else { 0i64 }],
        Op::Abs => {
            let m = if a < 0 { -a } else { a };
            vec![m]
        },
        Op::Negate => vec![0i64.wrapping_sub(a)],
        Op::Invert => vec![!a],
        Op::Max => vec![if a >= b { a } else { b }],
        Op::Min => vec![if a <= b { a } else { b }],
        Op::And => vec![b & a],
        Op::Or => vec![b | a],
        Op::Xor => vec![b ^ a],
        Op::Eq => vec![if b == a { -1i64 } else { 0i64 }],
        Op::Lt => vec![if b < a { -1i64 } else { 0i64 }],
        Op::Gt => vec![if b > a { -1i64 } else { 0i64 }],
        Op::LShift => {
            let k = a as u32;
            let s = if k < 63 { k } else { 63 };
            vec![b << s]
        },
        Op::RShift => {
            let k = a as u32;
            let s = if k < 63 { k } else { 63 };
            vec![((b as u64) >> s) as i64]
        },
        _ => vec![],
    };
    assert(r@ =~= results(op, data, depth as nat, p@));
    r
}

/// The innermost handler restores a data stack depth within the stack's
/// capacity.
pub open spec fn handlers_ok(v: Vm) -> bool {
    v.exception_stack@.len() > 0 ==> v.exception_stack@.last().d_depth <= D_STACK_LIMIT
}

/// Machine `post` is `pre` resumed at its innermost exception handler with
/// `code` pushed, and `r` what that reported: the handler's frame is
/// removed, the data stack depth, return and call stacks are cut back to
/// where the handler was set (a stack shorter than that is left as it is),
/// and `code` is pushed onto the stack as it then stands. With no handler
/// `r` is an `Exception` error and nothing changes.
pub open spec fn unwound(pre: Vm, post: Vm, code: i64, r: ForthResult<()>) -> bool {
    &&& post.wf()
    &&& post.guards_same(&pre)
    &&& post.path_trace == pre.path_trace
    &&& post.nested@ == pre.nested@
    &&& post.f_stack@ == pre.f_stack@
    &&& post.loop_stack@ == pre.loop_stack@
    &&& pre.exception_stack@.len() == 0 ==> r == Err::<(), ForthError>(exec_err(ForthErrorKind::Exception))
        && post@ == pre@ && post.d_stack == pre.d_stack
    &&& pre.exception_stack@.len() > 0 ==> {
        let f = pre.exception_stack@.last();
        let d1 = Seq::new(f.d_depth as nat, |i: int| crate::vm::state::cell(pre.stack_bytes(), i));
        &&& post.exception_stack@ == pre.exception_stack@.drop_last()
        &&& post.r_stack@ == if f.r_depth <= pre.r_stack@.len() {
            pre.r_stack@.take(f.r_depth as int)
        } else {
            pre.r_stack@
        }
        &&& post.c_stack@ == if f.c_depth <= pre.c_stack@.len() {
            pre.c_stack@.take(f.c_depth as int)
        } else {
            pre.c_stack@
        }
        &&& post.ip == f.handler_ip
        &&& post.in_tr == f.in_tr
        &&& post.data() == push_seq(d1, seq![code])
        &&& r == match push_res(d1, seq![code]) {
            Ok(_) => Ok::<(), ForthError>(()),
            Err(e) => Err(e),
        }
    }
}

impl Vm {
    /// Cell `i` of the data stack.
    fn read_cell(&self, i: usize) -> (r: i64)
        requires
            self.wf(),
            i < self.d_depth,
        ensures
            r == self.data()[i as int],
    {
        mmap_read_i64(&self.d_stack, D_CELLS_OFFSET + 8 * i)
    }

    /// Pops the top of the data stack, as `d_pop` does, stated over views.
    fn pop1(&mut self) -> (r: ForthResult<i64>)
        requires
            old(self).wf(),
        ensures
            final(self).wf(),
            final(self).d_stack == old(self).d_stack,
            final(self).path_trace == old(self).path_trace,
            old(self).data().len() == 0 ==> final(self)@ == with_data(old(self)@, Seq::empty())
                && r == Err::<i64, ForthError>(exec_err(ForthErrorKind::StackUnderflow)),
            old(self).data().len() > 0 ==> final(self)@ == dropped(old(self)@, 1)
                && r == Ok::<i64, ForthError>(top(old(self).data(), 0)),
    {
        let r = self.d_pop();
        assert(self@ =~= with_data(old(self)@, self.data()));
        assert(old(self).data().len() == 0 ==> self.data() =~= Seq::<i64>::empty());
        assert(old(self).data().len() > 0 ==> self.data() =~= old(self).data().take(old(self).data().len() - 1));
        r
    }

    /// Pushes `vals` one by one, stopping at the first that does not fit.
    fn push_all(&mut self, vals: &Vec<i64>) -> (r: ForthResult<ExecutionStatus>)
        requires
            old(self).wf(),
        ensures
            final(self).wf(),
            final(self)@ == with_data(old(self)@, push_seq(old(self).data(), vals@)),
            r == push_res(old(self).data(), vals@),
            final(self).path_trace == old(self).path_trace,
            final(self).guards_same(old(self)),
    {
        let ghost v0 = self@;
        let ghost d0 = self.data();
        let mut i: usize = 0;
        while i < vals.len()
            invariant
                self.wf(),
                i <= vals.len(),
                d0 == v0.data,
                d0 == old(self).data(),
                v0 == old(self)@,
                d0.len() + i <= D_STACK_LIMIT,
                self.d_depth == d0.len() + i,
                self.data() == d0 + vals@.take(i as int),
                self@ == with_data(v0, self.data()),
                self.path_trace == old(self).path_trace,
                self.guards_same(old(self)),
            decreases vals.len() - i,
        {
            assert(self.data().len() == self.d_depth);
            match self.d_push(vals[i]) {
                Ok(()) => {},
                Err(e) => {
                    assert(self.d_depth == D_STACK_LIMIT);
                    assert(vals@.take(i as int) =~= vals@.take(D_STACK_LIMIT - d0.len()));
                    assert(self@ =~= with_data(v0, push_seq(d0, vals@)));
                    return Err(e);
                },
            }
            assert(self.data().len() == self.d_depth);
            assert(vals@.take(i + 1) =~= vals@.take(i as int).push(vals@[i as int]));
            assert(self@ =~= with_data(v0, self.data()));
            i = i + 1;
        }
        assert(vals@.take(i as int) =~= vals@);
        assert(self@ =~= with_data(v0, push_seq(d0, vals@)));
        Ok(ExecutionStatus::Done)
    }

    /// Pushes `vals` one by one, stopping at the first that does not fit
    /// (`StackOverflow`).
    pub fn push_values(&mut self, vals: &Vec<i64>) -> (r: ForthResult<()>)
        requires
            old(self).wf(),
        ensures
            final(self).wf(),
            final(self)@ == with_data(old(self)@, push_seq(old(self).data(), vals@)),
            r == match push_res(old(self).data(), vals@) {
                Ok(_) => Ok::<(), ForthError>(()),
                Err(e) => Err(e),
            },
            final(self).path_trace == old(self).path_trace,
            final(self).guards_same(old(self)),
    {
        match self.push_all(vals) {
            Ok(_) => Ok(()),
            Err(e) => Err(e),
        }
    }

    /// Runs a data-stack instruction.
    fn exec_data_op(&mut self, op: Op, data: u64, sys: &mut System) -> (r: ForthResult<ExecutionStatus>)
        requires
            old(self).wf(),
            old(sys).code.wf(),
            is_data_op(op),
            step_ok(old(self)@, old(sys).sv(), old(sys).env(), op, data),
        ensures
            stepped(*old(self), *final(self), *old(sys), *final(sys), op, data, r),
    {
        let n = arity_of(op);
        if self.d_depth < n {
            self.d_depth = 0;
            assert(self@ =~= with_data(old(self)@, Seq::empty()));
            return Err(ForthError::new(ForthErrorKind::StackUnderflow, ForthPhase::Execution));
        }
        let d = self.d_depth;
        let mut p: Vec<i64> = Vec::new();
        let mut k: usize = d - n;
        while k < d
            invariant
                self == old(self),
                self.wf(),
                d == self.d_depth,
                n <= d,
                d - n <= k <= d,
                p@ == self.data().subrange(d - n, k as int),
            decreases d - k,
        {
            let x = self.read_cell(k);
            p.push(x);
            assert(self.data().subrange(d - n, k + 1) =~= self.data().subrange(d - n, k as int).push(x));
            k = k + 1;
        }
        self.d_depth = d - n;
        assert(self@ =~= dropped(old(self)@, n as int));
        let outs = data_results(op, data, d, &p);
        self.push_all(&outs)
    }

    /// Runs `MOD`.
    fn exec_mod(&mut self, data: u64, sys: &mut System) -> (r: ForthResult<ExecutionStatus>)
        requires
            old(self).wf(),
            old(sys).code.wf(),
        ensures
            reached(*old(self), *final(self), *old(sys), *final(sys), div_step(old(self)@, old(sys).sv(), Op::Mod)),
            r == div_step(old(self)@, old(sys).sv(), Op::Mod).res,
    {
        let a = self.pop1()?;
        let b = self.pop1()?;
        assert(self@ =~= dropped(old(self)@, 2));
        if a == 0 {
            return Err(ForthError::new(ForthErrorKind::DivideByZero, ForthPhase::Execution));
        }
        assert(b == top(old(self).data(), 1));
        let m = match b.checked_rem(a) {
            Some(x) => x,
            None => 0,
        };
        let vals = vec![m];
        assert(vals@ =~= seq![wrap_rem(b, a)]);
        self.push_all(&vals)
    }

    /// Runs `/MOD` or `/`.
    fn exec_divide(&mut self, op: Op, sys: &mut System) -> (r: ForthResult<ExecutionStatus>)
        requires
            old(self).wf(),
            old(sys).code.wf(),
            op == Op::DivMod || op == Op::Div,
        ensures
            reached(*old(self), *final(self), *old(sys), *final(sys), div_step(old(self)@, old(sys).sv(), op)),
            r == div_step(old(self)@, old(sys).sv(), op).res,
    {
        let a = self.pop1()?;
        if a == 0 {
            return Err(ForthError::new(ForthErrorKind::DivideByZero, ForthPhase::Execution));
        }
        let b = self.pop1()?;
        assert(self@ =~= dropped(old(self)@, 2));
        assert(b == top(old(self).data(), 1));
        let q = match b.checked_div(a) {
            Some(x) => x,
            None => i64::MIN,
        };
        if let Op::DivMod = op {
            let m = match b.checked_rem(a) {
                Some(x) => x,
                None => 0,
            };
            let vals = vec![m, q];
            assert(vals@ =~= seq![wrap_rem(b, a), wrap_div(b, a)]);
            self.push_all(&vals)
        } else {
            let vals = vec![q];
            assert(vals@ =~= seq![wrap_div(b, a)]);
            self.push_all(&vals)
        }
    }

    /// Runs `HERE`, `@` or `C@`.
    fn exec_load(&mut self, op: Op, sys: &mut System) -> (r: ForthResult<ExecutionStatus>)
        requires
            old(self).wf(),
            old(sys).code.wf(),
            op == Op::Here || op == Op::Fetch || op == Op::FetchC,
            op == Op::Fetch && old(self).data().len() >= 1 ==> (top(old(self).data(), 0) as usize) + 8 <= usize::MAX,
        ensures
            reached(*old(self), *final(self), *old(sys), *final(sys), mem_step(old(self)@, old(sys).sv(), op)),
            r == mem_step(old(self)@, old(sys).sv(), op).res,
    {
        let val = match op {
            Op::Here => sys.memory.here as i64,
            Op::Fetch => {
                let addr = self.pop1()?;
                sys.memory.read_i64(addr as usize)?
            },
            _ => {
                let addr = self.pop1()?;
                let b = sys.memory.read_u8(addr as usize)?;
                b as i64
            },
        };
        let vals = vec![val];
        assert(vals@ =~= seq![val]);
        self.push_all(&vals)
    }

    /// Runs `!` or `C!`.
    fn exec_store(&mut self, op: Op, sys: &mut System) -> (r: ForthResult<ExecutionStatus>)
        requires
            old(self).wf(),
            old(sys).code.wf(),
            op == Op::Store || op == Op::StoreC,
            op == Op::Store && old(self).data().len() >= 2 ==> (top(old(self).data(), 0) as usize) + 8 <= usize::MAX,
        ensures
            reached(*old(self), *final(self), *old(sys), *final(sys), mem_step(old(self)@, old(sys).sv(), op)),
            r == mem_step(old(self)@, old(sys).sv(), op).res,
    {
        let addr = self.pop1()?;
        let val = self.pop1()?;
        assert(self@ =~= dropped(old(self)@, 2));
        assert(val == top(old(self).data(), 1));
        if let Op::Store = op {
            sys.memory.write_i64(addr as usize, val)?;
        } else {
            sys.memory.write_u8(addr as usize, val as u8)?;
        }
        Ok(ExecutionStatus::Done)
    }

    /// Runs `ALLOT`, `,` or `COMPILE,`.
    fn exec_grow(&mut self, op: Op, sys: &mut System) -> (r: ForthResult<ExecutionStatus>)
        requires
            old(self).wf(),
            old(sys).code.wf(),
            op == Op::Allot || op == Op::Comma || op == Op::CompileComma,
            step_ok(old(self)@, old(sys).sv(), old(sys).env(), op, 0),
        ensures
            reached(*old(self), *final(self), *old(sys), *final(sys), mem_step(old(self)@, old(sys).sv(), op)),
            r == mem_step(old(self)@, old(sys).sv(), op).res,
    {
        let x = self.pop1()?;
        match op {
            Op::Allot => {
                sys.memory.allot(x as usize)?;
            },
            Op::Comma => {
                let h = sys.memory.here;
                sys.memory.write_i64(h, x)?;
                sys.memory.allot(8)?;
            },
            _ => {
                sys.code.push(Op::Call, x as u64);
            },
        }
        Ok(ExecutionStatus::Done)
    }

    /// Jumps relative to the current address, failing with
    /// `JumpOutOfBounds` when the target is not an address of code.
    fn jump_by(&mut self, data: u64, sys: &System) -> (r: ForthResult<ExecutionStatus>)
        requires
            old(self).wf(),
            jump_fits(old(self).ip, data),
        ensures
            *final(self) == (Vm { ip: final(self).ip, ..*old(self) }),
            final(self)@ == jumped(old(self)@, sys.sv(), data).vm,
            r == jumped(old(self)@, sys.sv(), data).res,
    {
        let t = (self.ip as i64 + data as i64) as usize;
        if t >= sys.code.ops.len() {
            return Err(ForthError::new(ForthErrorKind::JumpOutOfBounds { target: t }, ForthPhase::Execution));
        }
        self.ip = t;
        Ok(ExecutionStatus::Done)
    }

    /// Runs `JUMP` or `JZ`.
    fn exec_branch(&mut self, op: Op, data: u64, sys: &mut System) -> (r: ForthResult<ExecutionStatus>)
        requires
            old(self).wf(),
            old(sys).code.wf(),
            op == Op::Jump || op == Op::JZ,
            step_ok(old(self)@, old(sys).sv(), old(sys).env(), op, data),
        ensures
            reached(*old(self), *final(self), *old(sys), *final(sys), control_step(old(self)@, old(sys).sv(), old(sys).env(), op, data)),
            r == control_step(old(self)@, old(sys).sv(), old(sys).env(), op, data).res,
    {
        if let Op::Jump = op {
            return self.jump_by(data, sys);
        }
        let cond = self.pop1()?;
        if cond == 0 {
            self.jump_by(data, sys)
        } else {
            Ok(ExecutionStatus::Done)
        }
    }

    /// Runs `CALL` or `RET`.
    fn exec_call(&mut self, op: Op, data: u64, sys: &mut System) -> (r: ForthResult<ExecutionStatus>)
        requires
            old(self).wf(),
            old(sys).code.wf(),
            op == Op::Call || op == Op::Ret,
            step_ok(old(self)@, old(sys).sv(), old(sys).env(), op, data),
        ensures
            reached(*old(self), *final(self), *old(sys), *final(sys), control_step(old(self)@, old(sys).sv(), old(sys).env(), op, data)),
            r == control_step(old(self)@, old(sys).sv(), old(sys).env(), op, data).res,
    {
        if let Op::Call = op {
            let w = data as usize;
            if sys.trace_enabled {
                sys.runtime_trace.push(TraceEvent::EnterWord(w));
            }
            self.c_stack.push(Frame { ret_ip: self.ip, word_idx: w, ret_in_tr: self.in_tr });
            if let WordKind::Defined(target) = sys.dict.entries[w].kind {
                self.ip = target;
            }
            assert(self.data() =~= old(self).data());
            return Ok(ExecutionStatus::Done);
        }
        if sys.trace_enabled {
            sys.runtime_trace.push(TraceEvent::ExitWord);
        }
        assert(self.data() =~= old(self).data());
        match self.c_stack.pop() {
            Some(f) => {
                self.ip = f.ret_ip;
                self.in_tr = f.ret_in_tr;
                Ok(ExecutionStatus::Done)
            },
            None => Ok(ExecutionStatus::Stop),
        }
    }

    /// Runs `DO`, `LOOP`, `+LOOP`, `I` or `J`.
    fn exec_loop(&mut self, op: Op, data: u64, sys: &mut System) -> (r: ForthResult<ExecutionStatus>)
        requires
            old(self).wf(),
            old(sys).code.wf(),
            op == Op::Do || op == Op::Loop || op == Op::PLoop || op == Op::I || op == Op::J,
            step_ok(old(self)@, old(sys).sv(), old(sys).env(), op, data),
        ensures
            reached(*old(self), *final(self), *old(sys), *final(sys), control_step(old(self)@, old(sys).sv(), old(sys).env(), op, data)),
            r == control_step(old(self)@, old(sys).sv(), old(sys).env(), op, data).res,
    {
        match op {
            Op::Do => {
                let current = self.pop1()?;
                let limit = self.pop1()?;
                assert(self@ =~= dropped(old(self)@, 2));
                self.loop_stack.push(limit);
                self.loop_stack.push(current);
                Ok(ExecutionStatus::Done)
            },
            Op::Loop => {
                let len = self.loop_stack.len();
                if len < 2 {
                    return Err(ForthError::new(ForthErrorKind::StackUnderflow, ForthPhase::Execution));
                }
                let current = self.loop_stack[len - 1].wrapping_add(1);
                let limit = self.loop_stack[len - 2];
                if current < limit {
                    self.loop_stack.set(len - 1, current);
                    self.ip = (self.ip as i64 + data as i64) as usize;
                } else {
                    self.loop_stack.pop();
                    self.loop_stack.pop();
                    assert(self.loop_stack@ =~= old(self).loop_stack@.take(len - 2));
                }
                assert(self.data() =~= old(self).data());
                Ok(ExecutionStatus::Done)
            },
            Op::PLoop => {
                let delta = self.pop1()?;
                let len = self.loop_stack.len();
                if len < 2 {
                    return Err(ForthError::new(ForthErrorKind::StackUnderflow, ForthPhase::Execution));
                }
                let current = self.loop_stack[len - 1];
                let limit = self.loop_stack[len - 2];
                let next = current.wrapping_add(delta);
                let again = if delta >= 0 {
                    next < limit
                } else {
                    next >= limit
                };
                if again {
                    self.loop_stack.set(len - 1, next);
                    self.ip = (self.ip as i64 + data as i64) as usize;
                } else {
                    self.loop_stack.pop();
                    self.loop_stack.pop();
                    assert(self.loop_stack@ =~= old(self).loop_stack@.take(len - 2));
                }
                Ok(ExecutionStatus::Done)
            },
            Op::I => {
                let len = self.loop_stack.len();
                if len < 1 {
                    return Err(ForthError::new(ForthErrorKind::StackUnderflow, ForthPhase::Execution));
                }
                let vals = vec![self.loop_stack[len - 1]];
                assert(vals@ =~= seq![old(self).loop_stack@.last()]);
                self.push_all(&vals)
            },
            _ => {
                let len = self.loop_stack.len();
                if len < 4 {
                    return Err(ForthError::new(ForthErrorKind::StackUnderflow, ForthPhase::Execution));
                }
                let vals = vec![self.loop_stack[len - 3]];
                assert(vals@ =~= seq![old(self).loop_stack@[len - 3]]);
                self.push_all(&vals)
            },
        }
    }

    /// Runs `>R`, `R>`, `R@` or the float literal instruction.
    fn exec_rstack(&mut self, op: Op, data: u64, sys: &mut System) -> (r: ForthResult<ExecutionStatus>)
        requires
            old(self).wf(),
            old(sys).code.wf(),
            op == Op::ToR || op == Op::FromR || op == Op::RFetch || op == Op::PushF,
        ensures
            reached(*old(self), *final(self), *old(sys), *final(sys), misc_step(old(self)@, old(sys).sv(), op, data)),
            r == misc_step(old(self)@, old(sys).sv(), op, data).res,
    {
        match op {
            Op::PushF => {
                self.f_push_bits(data)?;
                assert(self.data() =~= old(self).data());
                Ok(ExecutionStatus::Done)
            },
            Op::ToR => {
                let v = self.pop1()?;
                let ghost mid = *self;
                let r = self.r_push(v);
                assert(self.data() =~= mid.data());
                r?;
                Ok(ExecutionStatus::Done)
            },
            Op::FromR => {
                let v = self.r_pop()?;
                assert(self.data() =~= old(self).data());
                let vals = vec![v];
                assert(vals@ =~= seq![v]);
                self.push_all(&vals)
            },
            _ => {
                let v = self.r_fetch()?;
                let vals = vec![v];
                assert(vals@ =~= seq![v]);
                self.push_all(&vals)
            },
        }
    }

    /// Runs `PICK` or `ROLL`.
    fn exec_pick_roll(&mut self, op: Op, data: u64, sys: &mut System) -> (r: ForthResult<ExecutionStatus>)
        requires
            old(self).wf(),
            old(sys).code.wf(),
            op == Op::Pick || op == Op::Roll,
        ensures
            reached(*old(self), *final(self), *old(sys), *final(sys), misc_step(old(self)@, old(sys).sv(), op, data)),
            r == misc_step(old(self)@, old(sys).sv(), op, data).res,
    {
        let n = self.pop1()? as usize;
        let d = self.d_depth;
        if let Op::Pick = op {
            if n >= d {
                return Err(ForthError::new(ForthErrorKind::StackUnderflow, ForthPhase::Execution));
            }
            let at = d - 1 - n;
            let vals = vec![self.read_cell(at)];
            assert(vals@ =~= seq![top(self.data(), n as int)]);
            return self.push_all(&vals);
        }
        if n == 0 {
            return Ok(ExecutionStatus::Done);
        }
        if n >= d {
            return Err(ForthError::new(ForthErrorKind::StackUnderflow, ForthPhase::Execution));
        }
        let t = d - 1 - n;
        let ghost v1 = self.data();
        let mut vals: Vec<i64> = Vec::new();
        let mut k: usize = t + 1;
        while k < d
            invariant
                self.wf(),
                self.d_depth == d,
                self.data() == v1,
                t < d,
                t + 1 <= k <= d,
                vals@ == v1.subrange(t + 1, k as int),
            decreases d - k,
        {
            vals.push(self.read_cell(k));
            assert(v1.subrange(t + 1, k + 1) =~= v1.subrange(t + 1, k as int).push(v1[k as int]));
            k = k + 1;
        }
        vals.push(self.read_cell(t));
        self.d_depth = t;
        assert(self.data() =~= v1.take(t as int));
        assert(v1.take(t as int) + vals@ =~= rolled(v1, n as int));
        let r = self.push_all(&vals);
        assert(self@ =~= with_data(old(self)@, rolled(v1, n as int)));
        r
    }

    /// Runs `.`, `EMIT`, `CR`, `YIELD`, `STOP`, `CATCH` or `THROW`.
    fn exec_io(&mut self, op: Op, data: u64, sys: &mut System) -> (r: ForthResult<ExecutionStatus>)
        requires
            old(self).wf(),
            old(sys).code.wf(),
            op == Op::Dot || op == Op::Emit || op == Op::Cr || op == Op::Yield || op == Op::Stop
                || op == Op::Catch || op == Op::Throw,
        ensures
            reached(*old(self), *final(self), *old(sys), *final(sys), misc_step(old(self)@, old(sys).sv(), op, data)),
            r == misc_step(old(self)@, old(sys).sv(), op, data).res,
    {
        match op {
            Op::Dot => {
                let a = self.pop1()?;
                sys.output.push(Output::Number(a));
                Ok(ExecutionStatus::Done)
            },
            Op::Emit => {
                let a = self.pop1()?;
                sys.output.push(Output::Char(a as u8));
                Ok(ExecutionStatus::Done)
            },
            Op::Cr => {
                sys.output.push(Output::Newline);
                Ok(ExecutionStatus::Done)
            },
            Op::Yield => Ok(ExecutionStatus::Yielded),
            Op::Stop => Ok(ExecutionStatus::Stop),
            Op::Catch => {
                self.exception_stack.push(CatchFrame {
                    d_depth: self.d_depth,
                    r_depth: self.r_stack.len(),
                    c_depth: self.c_stack.len(),
                    handler_ip: self.ip,
                    in_tr: self.in_tr,
                });
                assert(self.data() =~= old(self).data());
                Ok(ExecutionStatus::Done)
            },
            _ => {
                let code = self.pop1()?;
                if code != 0 {
                    return Ok(ExecutionStatus::Thrown(code));
                }
                Ok(ExecutionStatus::Done)
            },
        }
    }

    /// Runs instruction `op` with data field `data`, as `step_spec` says.
    ///
    /// Executing a colon definition (through `EXECUTE`) enters it and
    /// records a nested run in `nested`; the caller's loop runs its body and
    /// ends the run with `settle`.
    pub fn execute_op(&mut self, op: Op, data: u64, sys: &mut System) -> (r: ForthResult<ExecutionStatus>)
        requires
            old(self).wf(),
            old(sys).code.wf(),
            step_ok(old(self)@, old(sys).sv(), old(sys).env(), op, data),
        ensures
            stepped(*old(self), *final(self), *old(sys), *final(sys), op, data, r),
        decreases old(self).d_depth, 0nat,
    {
        match op {
            Op::Push | Op::BL | Op::Depth | Op::Add | Op::Sub | Op::Mul | Op::Dup | Op::Drop
            | Op::Swap | Op::Over | Op::Rot | Op::Nip | Op::Tuck | Op::Drop2 | Op::Dup2 | Op::Inc
            | Op::Dec | Op::Square | Op::IsZero | Op::Abs | Op::Negate | Op::Invert | Op::Max
            | Op::Min | Op::And | Op::Or | Op::Xor | Op::Eq | Op::Lt | Op::Gt | Op::LShift
            | Op::RShift => self.exec_data_op(op, data, sys),
            Op::Mod => self.exec_mod(data, sys),
            Op::DivMod | Op::Div => self.exec_divide(op, sys),
            Op::Here | Op::Fetch | Op::FetchC => self.exec_load(op, sys),
            Op::Store | Op::StoreC => self.exec_store(op, sys),
            Op::Allot | Op::Comma | Op::CompileComma => self.exec_grow(op, sys),
            Op::Jump | Op::JZ => self.exec_branch(op, data, sys),
            Op::Call | Op::Ret => self.exec_call(op, data, sys),
            Op::Do | Op::Loop | Op::PLoop | Op::I | Op::J => self.exec_loop(op, data, sys),
            Op::ToR | Op::FromR | Op::RFetch | Op::PushF => self.exec_rstack(op, data, sys),
            Op::Pick | Op::Roll => self.exec_pick_roll(op, data, sys),
            Op::Dot | Op::Emit | Op::Cr | Op::Yield | Op::Stop | Op::Catch | Op::Throw => self.exec_io(op, data, sys),
            Op::Execute => {
                let x = self.pop1()?;
                let xt = x as usize;
                if xt >= sys.dict.entries.len() {
                    return Err(ForthError::new(ForthErrorKind::InvalidWord, ForthPhase::Execution));
                }
                match self.execute_word(xt, sys) {
                    Ok(()) => Ok(ExecutionStatus::Done),
                    Err(e) => Err(e),
                }
            },
            _ => {
                assert(self.data() =~= old(self).data());
                Ok(ExecutionStatus::Done)
            },
        }
    }

    /// Executes dictionary word `idx`, as `word_spec` says: a primitive runs
    /// its instruction; a colon definition is entered, with a nested run
    /// recorded; other words do nothing.
    pub fn execute_word(&mut self, idx: usize, sys: &mut System) -> (r: ForthResult<()>)
        requires
            old(self).wf(),
            old(sys).code.wf(),
            idx < old(sys).dict.entries@.len(),
            word_ok(old(self)@, old(sys).sv(), old(sys).env(), idx),
        ensures
            reached(*old(self), *final(self), *old(sys), *final(sys), word_spec(old(self)@, old(sys).sv(), old(sys).env(), idx)),
            r == match word_spec(old(self)@, old(sys).sv(), old(sys).env(), idx).res {
                Ok(_) => Ok::<(), ForthError>(()),
                Err(e) => Err(e),
            },
        decreases old(self).d_depth, 1nat,
    {
        match sys.dict.entries[idx].kind {
            WordKind::Primitive(code) => {
                let op = Op::from_u8(code as u8).unwrap();
                match self.execute_op(op, 0, sys) {
                    Ok(_) => Ok(()),
                    Err(e) => Err(e),
                }
            },
            WordKind::Defined(addr) => {
                self.c_stack.push(Frame { ret_ip: self.ip, word_idx: idx, ret_in_tr: self.in_tr });
                self.nested.push(NestedRun { old_ip: self.ip, old_c_depth: self.c_stack.len() });
                self.ip = addr;
                assert(self.data() =~= old(self).data());
                Ok(())
            },
            _ => {
                assert(self.data() =~= old(self).data());
                Ok(())
            },
        }
    }

    /// Whether running `op` with data `data` at address `ip`, after `k`
    /// values have been taken off the data stack, is free of the faults
    /// `step_ok` names.
    fn op_ok(&self, sys: &System, op: Op, data: u64, ip: usize, k: usize) -> (b: bool)
        requires
            self.wf(),
            k <= self.d_depth,
        ensures
            b == step_ok(VmView { data: self.data().take(self.d_depth - k), ip, ..self@ }, sys.sv(), sys.env(), op, data),
        decreases self.d_depth - k, 0nat,
    {
        let ghost v = VmView { data: self.data().take(self.d_depth - k), ip, ..self@ };
        let depth = self.d_depth - k;
        let x = if depth >= 1 { self.read_cell(depth - 1) } else { 0 };
        proof {
            if depth >= 1 {
                assert(x == top(v.data, 0));
            }
        }
        let here = sys.memory.here;
        let pad = (8 - here % 8) % 8;
        match op {
            Op::Fetch => depth < 1 || (x as usize) <= usize::MAX - 8,
            Op::Store => depth < 2 || (x as usize) <= usize::MAX - 8,
            Op::Abs => depth < 1 || x != i64::MIN,
            Op::Allot => depth < 1 || (here <= usize::MAX - pad && here + pad <= usize::MAX - (x as usize)),
            Op::Comma => depth < 1 || (here <= usize::MAX - 8 && (here + 8 > sys.memory.len() || (here <= usize::MAX - pad && here + pad <= usize::MAX - 8))),
            Op::Jump => (ip as i64).checked_add(data as i64).is_some(),
            Op::JZ => depth < 1 || x != 0 || (ip as i64).checked_add(data as i64).is_some(),
            Op::Loop => {
                let n = self.loop_stack.len();
                n < 2 || !(self.loop_stack[n - 1].wrapping_add(1) < self.loop_stack[n - 2])
                    || (ip as i64).checked_add(data as i64).is_some()
            },
            Op::PLoop => {
                let n = self.loop_stack.len();
                if depth < 1 || n < 2 {
                    true
                } else {
                    let next = self.loop_stack[n - 1].wrapping_add(x);
                    let limit = self.loop_stack[n - 2];
                    let again = if x >= 0 { next < limit } else { next >= limit };
                    !again || (ip as i64).checked_add(data as i64).is_some()
                }
            },
            Op::Call => (data as usize) < sys.dict.entries.len(),
            Op::Execute => {
                if depth < 1 || (x as usize) >= sys.dict.entries.len() {
                    true
                } else {
                    let idx = x as usize;
                    proof {
                        assert(self.data().take(self.d_depth - (k + 1)) =~= v.data.take(v.data.len() - 1));
                    }
                    match sys.dict.entries[idx].kind {
                        WordKind::Primitive(c) => match Op::from_u8(c as u8) {
                            Some(p) => self.op_ok(sys, p, 0, ip, k + 1),
                            None => false,
                        },
                        _ => true,
                    }
                }
            },
            _ => true,
        }
    }

    /// Whether executing word `idx` is free of the faults `step_ok` names.
    pub fn word_can_run(&self, sys: &System, idx: usize) -> (b: bool)
        requires
            self.wf(),
            idx < sys.dict.entries@.len(),
        ensures
            b == word_ok(self@, sys.sv(), sys.env(), idx),
    {
        match sys.dict.entries[idx].kind {
            WordKind::Primitive(c) => match Op::from_u8(c as u8) {
                Some(op) => {
                    let r = self.op_ok(sys, op, 0, self.ip, 0);
                    assert(self.data().take(self.d_depth as int) =~= self.data());
                    assert(VmView { data: self.data(), ip: self.ip, ..self@ } == self@);
                    r
                },
                None => false,
            },
            _ => true,
        }
    }

    /// Whether the next interpreter step is free of the faults `step_ok`
    /// names. A driver tests this before each step and treats `false` as
    /// the fatal fault it stands for.
    pub fn can_step(&self, sys: &System) -> (b: bool)
        requires
            self.wf(),
            sys.code.wf(),
        ensures
            b == tier1_ok(self@, sys.sv(), sys.env()),
    {
        if self.ip >= sys.code.ops.len() {
            return true;
        }
        match Op::from_u8(sys.code.ops[self.ip]) {
            None => true,
            Some(op) => {
                let r = self.op_ok(sys, op, sys.code.data[self.ip], self.ip + 1, 0);
                assert(self.data().take(self.d_depth as int) =~= self.data());
                r
            },
        }
    }

    /// One interpreter step, as `tier1_spec` says.
    pub fn step_tier1(&mut self, sys: &mut System) -> (r: ForthResult<ExecutionStatus>)
        requires
            old(self).wf(),
            old(sys).code.wf(),
            tier1_ok(old(self)@, old(sys).sv(), old(sys).env()),
        ensures
            reached(*old(self), *final(self), *old(sys), *final(sys), tier1_spec(old(self)@, old(sys).sv(), old(sys).env())),
            r == tier1_spec(old(self)@, old(sys).sv(), old(sys).env()).res,
    {
        if self.ip >= sys.code.ops.len() {
            return Ok(ExecutionStatus::Stop);
        }
        let op_byte = sys.code.ops[self.ip];
        let data = sys.code.data[self.ip];
        let op = match Op::from_u8(op_byte) {
            Some(o) => o,
            None => {
                return Err(ForthError::new(ForthErrorKind::InvalidOpcode, ForthPhase::Execution));
            },
        };
        if sys.trace_enabled {
            sys.runtime_trace.push(TraceEvent::Op(self.ip, op, data));
        }
        self.ip = self.ip + 1;
        assert(self.data() =~= old(self).data());
        proof {
            lemma_step_ok_sys(self@, old(sys).sv(), sys.sv(), sys.env(), op, data);
        }
        self.execute_op(op, data, sys)
    }

    /// Ends the nested runs that the step which gave `r` finished (see
    /// `settled`); an error ends every nested run and is passed on.
    pub fn settle(&mut self, r: ForthResult<ExecutionStatus>) -> (out: ForthResult<ExecutionStatus>)
        ensures
            *final(self) == (Vm { nested: final(self).nested, ip: final(self).ip, c_stack: final(self).c_stack, ..*old(self) }),
            r is Err ==> final(self).c_stack == old(self).c_stack,
            match r {
                Err(e) => out == Err::<ExecutionStatus, ForthError>(e) && final(self).nested@.len() == 0
                    && final(self).ip == old(self).ip,
                Ok(st) => final(self)@ == settled(old(self)@, st).0 && out == Ok::<ExecutionStatus, ForthError>(settled(old(self)@, st).1),
            },
    {
        match r {
            Err(e) => {
                self.nested.clear();
                Err(e)
            },
            Ok(st0) => {
                let mut st = st0;
                while self.nested.len() > 0
                    invariant
                        *self == (Vm { nested: self.nested, ip: self.ip, c_stack: self.c_stack, ..*old(self) }),
                        settled(self@, st) == settled(old(self)@, st0),
                        r == Ok::<ExecutionStatus, ForthError>(st0),
                    decreases self.nested.len(),
                {
                    let run = self.nested[self.nested.len() - 1];
                    let finished = match st {
                        ExecutionStatus::Done => self.c_stack.len() < run.old_c_depth,
                        ExecutionStatus::Stop => true,
                        _ => false,
                    };
                    if !finished {
                        return Ok(ExecutionStatus::Done);
                    }
                    self.nested.pop();
                    self.ip = run.old_ip;
                    if run.old_c_depth > 0 && self.c_stack.len() >= run.old_c_depth {
                        self.c_stack.truncate(run.old_c_depth - 1);
                    }
                    st = ExecutionStatus::Done;
                }
                Ok(st)
            },
        }
    }

    /// Resumes at the innermost exception handler with `code` on the data
    /// stack, as `unwound` says. With no handler this is an `Exception`
    /// error and nothing changes.
    pub fn unwind_to_handler(&mut self, code: i64) -> (r: ForthResult<()>)
        requires
            old(self).wf(),
            handlers_ok(*old(self)),
        ensures
            unwound(*old(self), *final(self), code, r),
    {
        match self.exception_stack.pop() {
            Some(frame) => {
                self.d_depth = frame.d_depth;
                if frame.r_depth <= self.r_stack.len() {
                    self.r_stack.truncate(frame.r_depth);
                }
                if frame.c_depth <= self.c_stack.len() {
                    self.c_stack.truncate(frame.c_depth);
                }
                self.ip = frame.handler_ip;
                self.in_tr = frame.in_tr;
                let ghost d1 = self.data();
                assert(d1 =~= Seq::new(frame.d_depth as nat, |i: int| crate::vm::state::cell(old(self).stack_bytes(), i)));
                let vals = vec![code];
                assert(vals@ =~= seq![code]);
                match self.push_all(&vals) {
                    Ok(_) => Ok(()),
                    Err(e) => Err(e),
                }
            },
            None => Err(ForthError::new(ForthErrorKind::Exception, ForthPhase::Execution)),
        }
    }

    /// Puts the machine back to the given address, depth, flag and stack
    /// lengths: a longer stack is cut, a shorter one is filled up with zero
    /// values (zeroed frames for the call and exception stacks).
    pub fn rollback_state_full(
        &mut self,
        ip: usize,
        depth: usize,
        loop_len: usize,
        r_len: usize,
        c_len: usize,
        f_len: usize,
        e_len: usize,
        in_tr: bool,
    )
        requires
            old(self).wf(),
            depth <= D_STACK_LIMIT,
        ensures
            final(self).wf(),
            final(self).d_stack == old(self).d_stack,
            final(self).d_depth == depth,
            final(self).ip == ip,
            final(self).in_tr == in_tr,
            final(self).loop_stack@ == resized(old(self).loop_stack@, loop_len as nat, 0i64),
            final(self).r_stack@ == resized(old(self).r_stack@, r_len as nat, 0i64),
            final(self).c_stack@ == resized(old(self).c_stack@, c_len as nat, Frame { ret_ip: 0, word_idx: 0, ret_in_tr: false }),
            final(self).f_stack@ == resized(old(self).f_stack@, f_len as nat, 0u64),
            final(self).exception_stack@ == resized(
                old(self).exception_stack@,
                e_len as nat,
                CatchFrame { d_depth: 0, r_depth: 0, c_depth: 0, handler_ip: 0, in_tr: false },
            ),
            final(self).path_trace == old(self).path_trace,
            final(self).nested == old(self).nested,
    {
        self.ip = ip;
        self.d_depth = depth;
        self.in_tr = in_tr;
        self.loop_stack.resize(loop_len, 0);
        self.r_stack.resize(r_len, 0);
        self.c_stack.resize(c_len, Frame { ret_ip: 0, word_idx: 0, ret_in_tr: false });
        self.f_stack.resize(f_len, 0);
        self.exception_stack.resize(e_len, CatchFrame { d_depth: 0, r_depth: 0, c_depth: 0, handler_ip: 0, in_tr: false });
        assert(self.loop_stack@ =~= resized(old(self).loop_stack@, loop_len as nat, 0i64));
        assert(self.r_stack@ =~= resized(old(self).r_stack@, r_len as nat, 0i64));
        assert(self.c_stack@ =~= resized(old(self).c_stack@, c_len as nat, Frame { ret_ip: 0, word_idx: 0, ret_in_tr: false }));
        assert(self.f_stack@ =~= resized(old(self).f_stack@, f_len as nat, 0u64));
        assert(self.exception_stack@ =~= resized(
            old(self).exception_stack@,
            e_len as nat,
            CatchFrame { d_depth: 0, r_depth: 0, c_depth: 0, handler_ip: 0, in_tr: false },
        ));
    }

    /// A number met by the text interpreter: compiled as a literal while
    /// compiling, pushed otherwise.
    pub fn handle_literal(&mut self, val: i64, sys: &mut System) -> (r: ForthResult<()>)
        requires
            old(self).wf(),
        ensures
            final(self).wf(),
            final(self).path_trace == old(self).path_trace,
            old(sys).compiling ==> r is Ok && *final(self) == *old(self)
                && final(sys).code.ops@ == old(sys).code.ops@.push(Op::Push.code())
                && final(sys).code.data@ == old(sys).code.data@.push(val as u64)
                && *final(sys) == (System { code: final(sys).code, ..*old(sys) }),
            !old(sys).compiling ==> *final(sys) == *old(sys) && final(self)@ == pushed(old(self)@, old(sys).sv(), seq![val]).vm
                && r == match push_res(old(self).data(), seq![val]) {
                    Ok(_) => Ok::<(), ForthError>(()),
                    Err(e) => Err(e),
                },
    {
        if sys.compiling {
            sys.code.push(Op::Push, val as u64);
            Ok(())
        } else {
            let vals = vec![val];
            assert(vals@ =~= seq![val]);
            match self.push_all(&vals) {
                Ok(_) => Ok(()),
                Err(e) => Err(e),
            }
        }
    }

    /// What the run loop does with the result of a step: `Done` goes on;
    /// `Stop` and `Yielded` end the run; a throw resumes at the innermost
    /// handler (an error there ends the run with it); an error resumes at
    /// the innermost handler with code -1, or ends the run with the error
    /// when that fails. Returns whether the run goes on.
    pub fn after_step(&mut self, r: ForthResult<ExecutionStatus>) -> (out: ForthResult<bool>)
        requires
            old(self).wf(),
            handlers_ok(*old(self)),
        ensures
            match r {
                Ok(ExecutionStatus::Done) => out == Ok::<bool, ForthError>(true) && *final(self) == *old(self),
                Ok(ExecutionStatus::Stop) | Ok(ExecutionStatus::Yielded) => out == Ok::<bool, ForthError>(false) && *final(self) == *old(self),
                Ok(ExecutionStatus::Thrown(code)) => exists|u: ForthResult<()>| #[trigger] unwound(*old(self), *final(self), code, u) && out == match u {
                    Ok(_) => Ok::<bool, ForthError>(true),
                    Err(e) => Err(e),
                },
                Err(e) => exists|u: ForthResult<()>| #[trigger] unwound(*old(self), *final(self), -1i64, u) && out == match u {
                    Ok(_) => Ok::<bool, ForthError>(true),
                    Err(_) => Err(e),
                },
            },
    {
        match r {
            Ok(ExecutionStatus::Done) => Ok(true),
            Ok(ExecutionStatus::Stop) => Ok(false),
            Ok(ExecutionStatus::Yielded) => Ok(false),
            Ok(ExecutionStatus::Thrown(code)) => {
                let u = self.unwind_to_handler(code);
                match u {
                    Ok(_) => Ok(true),
                    Err(e) => Err(e),
                }
            },
            Err(e) => {
                let u = self.unwind_to_handler(-1);
                match u {
                    Ok(_) => Ok(true),
                    Err(_) => Err(e),
                }
            },
        }
    }
}

} // verus!
