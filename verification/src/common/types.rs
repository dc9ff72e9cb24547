use vstd::prelude::*;

verus! {

/// What one step of execution reports.
#[derive(Debug, Clone, Copy, PartialEq, Eq, Structural)]
pub enum ExecutionStatus {
    Done,
    Yielded,
    Stop,
    Thrown(i64),
}

/// One record of the runtime trace that feeds the optimizer.
#[derive(Debug, Clone, Copy, PartialEq, Eq, Structural)]
pub enum TraceEvent {
    Op(usize, Op, u64),
    EnterWord(usize),
    ExitWord,
    LoopStart,
    LoopEnd,
}

/// A symbolic stack value: either statically known or not.
#[derive(Clone, Copy, Debug, PartialEq, Eq, Structural)]
pub enum Sym {
    Unknown,
    Literal(i64),
}

/// The virtual machine's instructions.
///
/// An instruction is a one-byte tag (its code, see `Op::code`) with an
/// eight-byte data field beside it in the code buffer.
#[derive(Clone, Copy, Debug, PartialEq, Eq, Hash, Structural)]
pub enum Op {
    /// Do nothing.
    Noop,
    /// Push the literal `i64` held in the data field.
    Push,
    /// Push the literal float, given by its bits in the data field, to the float stack.
    PushF,
    /// Internal primitive operation marker.
    Prim,
    /// Call a word by its index.
    Call,
    /// Return from the current word.
    Ret,
    /// Unconditional relative jump.
    Jump,
    /// Conditional relative jump, taken when the top of stack is zero.
    JZ,
    /// Remainder of division.
    Mod,
    /// Quotient and remainder of division.
    DivMod,
    /// Execute an execution token (word index) popped from the stack.
    Execute,
    /// Push the current data stack depth.
    Depth,
    Square,
    Nip,
    Tuck,
    Inc,
    Dec,
    IsZero,
    Drop2,
    Dup2,
    Fetch,
    Store,
    FetchC,
    StoreC,
    ToR,
    FromR,
    RFetch,
    Add,
    Sub,
    Mul,
    Div,
    Do,
    Loop,
    PLoop,
    I,
    DoesPatch,
    DoesJump,
    Stop,
    Dup,
    Drop,
    Swap,
    Over,
    Rot,
    Dot,
    Emit,
    Cr,
    Yield,
    Catch,
    Throw,
    Eq,
    Lt,
    Gt,
    Pick,
    Roll,
    Max,
    Min,
    Abs,
    Negate,
    And,
    Or,
    Xor,
    Invert,
    LShift,
    RShift,
    Here,
    Allot,
    Comma,
    CompileComma,
    J,
    Leave,
    BL,
    Super,
}

impl Op {
    /// The byte that encodes this instruction.
    pub open spec fn code(self) -> u8 {
        match self {
            Op::Noop => 0,
            Op::Push => 1,
            Op::PushF => 2,
            Op::Prim => 3,
            Op::Call => 4,
            Op::Ret => 5,
            Op::Jump => 6,
            Op::JZ => 7,
            Op::Mod => 8,
            Op::DivMod => 9,
            Op::Execute => 10,
            Op::Depth => 11,
            Op::Square => 12,
            Op::Nip => 13,
            Op::Tuck => 14,
            Op::Inc => 15,
            Op::Dec => 16,
            Op::IsZero => 17,
            Op::Drop2 => 18,
            Op::Dup2 => 19,
            Op::Fetch => 20,
            Op::Store => 21,
            Op::FetchC => 22,
            Op::StoreC => 23,
            Op::ToR => 24,
            Op::FromR => 25,
            Op::RFetch => 26,
            Op::Add => 27,
            Op::Sub => 28,
            Op::Mul => 29,
            Op::Div => 30,
            Op::Do => 31,
            Op::Loop => 32,
            Op::PLoop => 33,
            Op::I => 34,
            Op::DoesPatch => 35,
            Op::DoesJump => 36,
            Op::Stop => 37,
            Op::Dup => 38,
            Op::Drop => 39,
            Op::Swap => 40,
            Op::Over => 41,
            Op::Rot => 42,
            Op::Dot => 43,
            Op::Emit => 44,
            Op::Cr => 45,
            Op::Yield => 46,
            Op::Catch => 47,
            Op::Throw => 48,
            Op::Eq => 49,
            Op::Lt => 50,
            Op::Gt => 51,
            Op::Pick => 52,
            Op::Roll => 53,
            Op::Max => 54,
            Op::Min => 55,
            Op::Abs => 56,
            Op::Negate => 57,
            Op::And => 58,
            Op::Or => 59,
            Op::Xor => 60,
            Op::Invert => 61,
            Op::LShift => 62,
            Op::RShift => 63,
            Op::Here => 64,
            Op::Allot => 65,
            Op::Comma => 66,
            Op::CompileComma => 67,
            Op::J => 68,
            Op::Leave => 69,
            Op::BL => 70,
            Op::Super => 127,
        }
    }

    /// The byte that encodes this instruction.
    pub fn to_u8(self) -> (r: u8)
        ensures
            r == self.code(),
    {
        match self {
            Op::Noop => 0,
            Op::Push => 1,
            Op::PushF => 2,
            Op::Prim => 3,
            Op::Call => 4,
            Op::Ret => 5,
            Op::Jump => 6,
            Op::JZ => 7,
            Op::Mod => 8,
            Op::DivMod => 9,
            Op::Execute => 10,
            Op::Depth => 11,
            Op::Square => 12,
            Op::Nip => 13,
            Op::Tuck => 14,
            Op::Inc => 15,
            Op::Dec => 16,
            Op::IsZero => 17,
            Op::Drop2 => 18,
            Op::Dup2 => 19,
            Op::Fetch => 20,
            Op::Store => 21,
            Op::FetchC => 22,
            Op::StoreC => 23,
            Op::ToR => 24,
            Op::FromR => 25,
            Op::RFetch => 26,
            Op::Add => 27,
            Op::Sub => 28,
            Op::Mul => 29,
            Op::Div => 30,
            Op::Do => 31,
            Op::Loop => 32,
            Op::PLoop => 33,
            Op::I => 34,
            Op::DoesPatch => 35,
            Op::DoesJump => 36,
            Op::Stop => 37,
            Op::Dup => 38,
            Op::Drop => 39,
            Op::Swap => 40,
            Op::Over => 41,
            Op::Rot => 42,
            Op::Dot => 43,
            Op::Emit => 44,
            Op::Cr => 45,
            Op::Yield => 46,
            Op::Catch => 47,
            Op::Throw => 48,
            Op::Eq => 49,
            Op::Lt => 50,
            Op::Gt => 51,
            Op::Pick => 52,
            Op::Roll => 53,
            Op::Max => 54,
            Op::Min => 55,
            Op::Abs => 56,
            Op::Negate => 57,
            Op::And => 58,
            Op::Or => 59,
            Op::Xor => 60,
            Op::Invert => 61,
            Op::LShift => 62,
            Op::RShift => 63,
            Op::Here => 64,
            Op::Allot => 65,
            Op::Comma => 66,
            Op::CompileComma => 67,
            Op::J => 68,
            Op::Leave => 69,
            Op::BL => 70,
            Op::Super => 127,
        }
    }

    /// Decodes an instruction byte; `None` for a byte that encodes nothing.
    pub fn from_u8(v: u8) -> (r: Option<Self>)
        ensures
            r == decode_op(v),
    {
        match v {
        0 => Some(Op::Noop),
        1 => Some(Op::Push),
        2 => Some(Op::PushF),
        3 => Some(Op::Prim),
        4 => Some(Op::Call),
        5 => Some(Op::Ret),
        6 => Some(Op::Jump),
        7 => Some(Op::JZ),
        8 => Some(Op::Mod),
        9 => Some(Op::DivMod),
        10 => Some(Op::Execute),
        11 => Some(Op::Depth),
        12 => Some(Op::Square),
        13 => Some(Op::Nip),
        14 => Some(Op::Tuck),
        15 => Some(Op::Inc),
        16 => Some(Op::Dec),
        17 => Some(Op::IsZero),
        18 => Some(Op::Drop2),
        19 => Some(Op::Dup2),
        20 => Some(Op::Fetch),
        21 => Some(Op::Store),
        22 => Some(Op::FetchC),
        23 => Some(Op::StoreC),
        24 => Some(Op::ToR),
        25 => Some(Op::FromR),
        26 => Some(Op::RFetch),
        27 => Some(Op::Add),
        28 => Some(Op::Sub),
        29 => Some(Op::Mul),
        30 => Some(Op::Div),
        31 => Some(Op::Do),
        32 => Some(Op::Loop),
        33 => Some(Op::PLoop),
        34 => Some(Op::I),
        35 => Some(Op::DoesPatch),
        36 => Some(Op::DoesJump),
        37 => Some(Op::Stop),
        38 => Some(Op::Dup),
        39 => Some(Op::Drop),
        40 => Some(Op::Swap),
        41 => Some(Op::Over),
        42 => Some(Op::Rot),
        43 => Some(Op::Dot),
        44 => Some(Op::Emit),
        45 => Some(Op::Cr),
        46 => Some(Op::Yield),
        47 => Some(Op::Catch),
        48 => Some(Op::Throw),
        49 => Some(Op::Eq),
        50 => Some(Op::Lt),
        51 => Some(Op::Gt),
        52 => Some(Op::Pick),
        53 => Some(Op::Roll),
        54 => Some(Op::Max),
        55 => Some(Op::Min),
        56 => Some(Op::Abs),
        57 => Some(Op::Negate),
        58 => Some(Op::And),
        59 => Some(Op::Or),
        60 => Some(Op::Xor),
        61 => Some(Op::Invert),
        62 => Some(Op::LShift),
        63 => Some(Op::RShift),
        64 => Some(Op::Here),
        65 => Some(Op::Allot),
        66 => Some(Op::Comma),
        67 => Some(Op::CompileComma),
        68 => Some(Op::J),
        69 => Some(Op::Leave),
        70 => Some(Op::BL),
        127 => Some(Op::Super),
            _ => None,
        }
    }
}

/// The instruction that a byte encodes, if any.
pub open spec fn decode_op(v: u8) -> Option<Op> {
    match v {
        0 => Some(Op::Noop),
        1 => Some(Op::Push),
        2 => Some(Op::PushF),
        3 => Some(Op::Prim),
        4 => Some(Op::Call),
        5 => Some(Op::Ret),
        6 => Some(Op::Jump),
        7 => Some(Op::JZ),
        8 => Some(Op::Mod),
        9 => Some(Op::DivMod),
        10 => Some(Op::Execute),
        11 => Some(Op::Depth),
        12 => Some(Op::Square),
        13 => Some(Op::Nip),
        14 => Some(Op::Tuck),
        15 => Some(Op::Inc),
        16 => Some(Op::Dec),
        17 => Some(Op::IsZero),
        18 => Some(Op::Drop2),
        19 => Some(Op::Dup2),
        20 => Some(Op::Fetch),
        21 => Some(Op::Store),
        22 => Some(Op::FetchC),
        23 => Some(Op::StoreC),
        24 => Some(Op::ToR),
        25 => Some(Op::FromR),
        26 => Some(Op::RFetch),
        27 => Some(Op::Add),
        28 => Some(Op::Sub),
        29 => Some(Op::Mul),
        30 => Some(Op::Div),
        31 => Some(Op::Do),
        32 => Some(Op::Loop),
        33 => Some(Op::PLoop),
        34 => Some(Op::I),
        35 => Some(Op::DoesPatch),
        36 => Some(Op::DoesJump),
        37 => Some(Op::Stop),
        38 => Some(Op::Dup),
        39 => Some(Op::Drop),
        40 => Some(Op::Swap),
        41 => Some(Op::Over),
        42 => Some(Op::Rot),
        43 => Some(Op::Dot),
        44 => Some(Op::Emit),
        45 => Some(Op::Cr),
        46 => Some(Op::Yield),
        47 => Some(Op::Catch),
        48 => Some(Op::Throw),
        49 => Some(Op::Eq),
        50 => Some(Op::Lt),
        51 => Some(Op::Gt),
        52 => Some(Op::Pick),
        53 => Some(Op::Roll),
        54 => Some(Op::Max),
        55 => Some(Op::Min),
        56 => Some(Op::Abs),
        57 => Some(Op::Negate),
        58 => Some(Op::And),
        59 => Some(Op::Or),
        60 => Some(Op::Xor),
        61 => Some(Op::Invert),
        62 => Some(Op::LShift),
        63 => Some(Op::RShift),
        64 => Some(Op::Here),
        65 => Some(Op::Allot),
        66 => Some(Op::Comma),
        67 => Some(Op::CompileComma),
        68 => Some(Op::J),
        69 => Some(Op::Leave),
        70 => Some(Op::BL),
        127 => Some(Op::Super),
        _ => None,
    }
}

/// Decoding gives back the instruction that was encoded.
pub proof fn lemma_decode_encode(op: Op)
    ensures
        decode_op(op.code()) == Some(op),
{
}

/// A byte that decodes to an instruction is that instruction's code.
pub proof fn lemma_encode_decode(v: u8)
    ensures
        decode_op(v) matches Some(op) ==> op.code() == v,
        decode_op(v) is Some <==> (v <= 70 || v == 127),
{
}

/// A half-open byte range `[start, end)` of data memory.
#[derive(Clone, Copy, Debug, PartialEq, Eq, Hash, Structural)]
pub struct AddressRange {
    pub start: i64,
    pub end: i64,
}

/// Whether two half-open ranges share at least one address.
pub open spec fn ranges_overlap(a: AddressRange, b: AddressRange) -> bool {
    a.start < b.end && b.start < a.end
}

impl AddressRange {
    /// Whether the two ranges share at least one address.
    pub fn overlaps(&self, other: &Self) -> (r: bool)
        ensures
            r == ranges_overlap(*self, *other),
    {
        self.start < other.end && other.start < self.end
    }
}

/// Overlap is symmetric.
pub proof fn lemma_overlap_symmetric(a: AddressRange, b: AddressRange)
    ensures
        ranges_overlap(a, b) == ranges_overlap(b, a),
{
}

/// A range overlaps itself exactly when it is non-empty.
pub proof fn lemma_overlap_self(a: AddressRange)
    ensures
        ranges_overlap(a, a) <==> a.start < a.end,
{
}

/// The memory footprint of a code sequence.
#[derive(Clone, Debug, PartialEq, Eq, Hash)]
pub struct MemoryAccess {
    pub read_set: Vec<AddressRange>,
    pub write_set: Vec<AddressRange>,
    pub unknown_read: bool,
    pub unknown_write: bool,
    pub alias_barrier: bool,
}

/// The mathematical value of a `MemoryAccess`.
pub struct MemoryAccessView {
    pub read_set: Seq<AddressRange>,
    pub write_set: Seq<AddressRange>,
    pub unknown_read: bool,
    pub unknown_write: bool,
    pub alias_barrier: bool,
}

impl View for MemoryAccess {
    type V = MemoryAccessView;

    open spec fn view(&self) -> MemoryAccessView {
        MemoryAccessView {
            read_set: self.read_set@,
            write_set: self.write_set@,
            unknown_read: self.unknown_read,
            unknown_write: self.unknown_write,
            alias_barrier: self.alias_barrier,
        }
    }
}

/// Ranges ordered by start address, ties kept in the order they came in:
/// each range is placed after every earlier one that does not start later.
pub open spec fn sort_by_start(s: Seq<AddressRange>) -> Seq<AddressRange>
    decreases s.len(),
{
    if s.len() == 0 {
        s
    } else {
        insert_by_start(sort_by_start(s.drop_last()), s.last())
    }
}

/// Where `x` goes in `s`: after the longest suffix of elements starting later.
pub open spec fn insert_pos(s: Seq<AddressRange>, x: AddressRange) -> int
    decreases s.len(),
{
    if s.len() == 0 || s.last().start <= x.start {
        s.len() as int
    } else {
        insert_pos(s.drop_last(), x)
    }
}

pub open spec fn insert_by_start(s: Seq<AddressRange>, x: AddressRange) -> Seq<AddressRange> {
    s.insert(insert_pos(s, x), x)
}

/// Ranges in non-decreasing order of start address.
pub open spec fn sorted_by_start(s: Seq<AddressRange>) -> bool {
    forall|i: int, j: int| 0 <= i <= j < s.len() ==> s[i].start <= s[j].start
}

proof fn lemma_insert_pos_bounds(s: Seq<AddressRange>, x: AddressRange)
    requires
        sorted_by_start(s),
    ensures
        0 <= insert_pos(s, x) <= s.len(),
        forall|i: int| 0 <= i < insert_pos(s, x) ==> s[i].start <= x.start,
        forall|i: int| insert_pos(s, x) <= i < s.len() ==> s[i].start > x.start,
    decreases s.len(),
{
    if s.len() == 0 || s.last().start <= x.start {
        assert forall|i: int| 0 <= i < s.len() implies s[i].start <= x.start by {
            assert(s[i].start <= s[s.len() - 1].start);
        }
    } else {
        let t = s.drop_last();
        assert(sorted_by_start(t));
        lemma_insert_pos_bounds(t, x);
        assert forall|i: int| insert_pos(s, x) <= i < s.len() implies s[i].start > x.start by {
            if i < t.len() {
                assert(s[i] == t[i]);
            }
        }
        assert forall|i: int| 0 <= i < insert_pos(s, x) implies s[i].start <= x.start by {
            assert(s[i] == t[i]);
        }
    }
}

/// Sorting by start yields ranges in order, holding the same ranges as before.
pub proof fn lemma_sort_by_start(s: Seq<AddressRange>)
    ensures
        sorted_by_start(sort_by_start(s)),
        sort_by_start(s).to_multiset() == s.to_multiset(),
        sort_by_start(s).len() == s.len(),
    decreases s.len(),
{
    broadcast use vstd::seq_lib::group_to_multiset_ensures;
    if s.len() > 0 {
        let t = sort_by_start(s.drop_last());
        lemma_sort_by_start(s.drop_last());
        lemma_insert_pos_bounds(t, s.last());
        let p = insert_pos(t, s.last());
        let r = t.insert(p, s.last());
        assert forall|i: int, j: int| 0 <= i <= j < r.len() implies r[i].start <= r[j].start by {
            if i < p && j > p {
                assert(r[i] == t[i]);
                assert(r[j] == t[j - 1]);
            }
        }
        vstd::seq_lib::to_multiset_insert(t, p, s.last());
        assert(s.drop_last().push(s.last()) =~= s);
        vstd::seq_lib::to_multiset_build(s.drop_last(), s.last());
    }
}

/// Sorting leaves an already ordered sequence as it is.
pub proof fn lemma_sort_sorted_identity(s: Seq<AddressRange>)
    requires
        sorted_by_start(s),
    ensures
        sort_by_start(s) == s,
    decreases s.len(),
{
    if s.len() > 0 {
        let t = s.drop_last();
        assert(sorted_by_start(t));
        lemma_sort_sorted_identity(t);
        assert(insert_pos(t, s.last()) == t.len()) by {
            if t.len() > 0 {
                assert(t.last() == s[s.len() - 2]);
            }
        }
        assert(t.insert(t.len() as int, s.last()) =~= s);
    }
}

proof fn lemma_insert_pos_found(s: Seq<AddressRange>, x: AddressRange, p: int)
    requires
        0 <= p <= s.len(),
        insert_pos(s, x) == insert_pos(s.take(p), x),
        p == 0 || s[p - 1].start <= x.start,
    ensures
        insert_pos(s, x) == p,
{
    if p > 0 {
        assert(s.take(p).last() == s[p - 1]);
    }
}

/// Stable insertion sort of ranges by start address.
fn sort_ranges(v: &mut Vec<AddressRange>)
    ensures
        final(v)@ == sort_by_start(old(v)@),
{
    let ghost input = v@;
    let mut out: Vec<AddressRange> = Vec::new();
    let n = v.len();
    let mut i: usize = 0;
    while i < n
        invariant
            n == v.len(),
            v@ == input,
            i <= n,
            out@ == sort_by_start(input.take(i as int)),
        decreases n - i,
    {
        let x = v[i];
        let ghost before = out@;
        let mut p = out.len();
        assert(out@.take(p as int) =~= out@);
        while p > 0 && out[p - 1].start > x.start
            invariant
                out@ == before,
                p <= out.len(),
                insert_pos(before, x) == insert_pos(before.take(p as int), x),
            decreases p,
        {
            assert(before.take(p as int).drop_last() =~= before.take(p - 1));
            p = p - 1;
        }
        proof {
            lemma_insert_pos_found(before, x, p as int);
        }
        out.insert(p, x);
        proof {
            let t = input.take(i + 1);
            assert(t.drop_last() =~= input.take(i as int));
            assert(t.last() == x);
        }
        i = i + 1;
    }
    assert(input.take(n as int) =~= input);
    *v = out;
}

impl MemoryAccess {
    /// Orders both range sets by start address (stable).
    pub fn canonicalize(&mut self)
        ensures
            final(self)@.read_set == sort_by_start(old(self)@.read_set),
            final(self)@.write_set == sort_by_start(old(self)@.write_set),
            final(self).unknown_read == old(self).unknown_read,
            final(self).unknown_write == old(self).unknown_write,
            final(self).alias_barrier == old(self).alias_barrier,
    {
        sort_ranges(&mut self.read_set);
        sort_ranges(&mut self.write_set);
    }

    /// Whether writes may touch what is read: an unknown access, or a write
    /// range that overlaps a read range.
    pub fn has_alias_risk(&self) -> (r: bool)
        ensures
            r == access_alias_risk(self@),
    {
        if self.unknown_read || self.unknown_write {
            return true;
        }
        let mut wi: usize = 0;
        while wi < self.write_set.len()
            invariant
                !self.unknown_read && !self.unknown_write,
                wi <= self.write_set.len(),
                forall|a: int, b: int|
                    0 <= a < wi && 0 <= b < self.read_set.len() ==> !ranges_overlap(
                        self.write_set@[a],
                        self.read_set@[b],
                    ),
            decreases self.write_set.len() - wi,
        {
            let mut ri: usize = 0;
            while ri < self.read_set.len()
                invariant
                    wi < self.write_set.len(),
                    ri <= self.read_set.len(),
                    forall|b: int|
                        0 <= b < ri ==> !ranges_overlap(self.write_set@[wi as int], self.read_set@[b]),
                decreases self.read_set.len() - ri,
            {
                if self.write_set[wi].overlaps(&self.read_set[ri]) {
                    assert(ranges_overlap(self@.write_set[wi as int], self@.read_set[ri as int]));
                    return true;
                }
                ri = ri + 1;
            }
            wi = wi + 1;
        }
        false
    }
}

/// Whether an access may alias: unknown reads or writes, or some written
/// range overlapping some read range.
pub open spec fn access_alias_risk(m: MemoryAccessView) -> bool {
    alias_risk(m.read_set, m.write_set, m.unknown_read, m.unknown_write)
}

pub open spec fn alias_risk(
    reads: Seq<AddressRange>,
    writes: Seq<AddressRange>,
    unknown_read: bool,
    unknown_write: bool,
) -> bool {
    unknown_read || unknown_write || exists|a: int, b: int|
        0 <= a < writes.len() && 0 <= b < reads.len() && ranges_overlap(
            #[trigger] writes[a],
            #[trigger] reads[b],
        )
}

/// The stack and memory effect of a code sequence.
#[derive(Clone, Debug, PartialEq, Eq, Hash)]
pub struct SemanticContract {
    pub pop_d: usize,
    pub push_d: usize,
    pub max_d: usize,
    pub pop_r: usize,
    pub push_r: usize,
    pub max_r: usize,
    pub mem: MemoryAccess,
    pub pure: bool,
    pub side_effects: bool,
}

/// The mathematical value of a `SemanticContract`.
pub struct ContractView {
    pub pop_d: usize,
    pub push_d: usize,
    pub max_d: usize,
    pub pop_r: usize,
    pub push_r: usize,
    pub max_r: usize,
    pub mem: MemoryAccessView,
    pub pure: bool,
    pub side_effects: bool,
}

impl View for SemanticContract {
    type V = ContractView;

    open spec fn view(&self) -> ContractView {
        ContractView {
            pop_d: self.pop_d,
            push_d: self.push_d,
            max_d: self.max_d,
            pop_r: self.pop_r,
            push_r: self.push_r,
            max_r: self.max_r,
            mem: self.mem@,
            pure: self.pure,
            side_effects: self.side_effects,
        }
    }
}

} // verus!
