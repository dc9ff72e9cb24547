use crate::common::error::{ForthResult, ForthError, ForthErrorKind, ForthPhase, exec_err};
use crate::common::types::{Op, decode_op};
use crate::compiler::parser::{Parser, Token, TokenView, lex, token_result_view, parse_radix, from_str_radix};
use crate::system::system::{System, Dictionary, WordKind, WordEntryView, search, lowercase, to_lowercase, names_map};
use crate::vm::execution::reached;
use crate::vm::semantics::{word_spec, word_ok, pushed, push_res};
use crate::vm::state::Vm;
use vstd::prelude::*;

verus! {

/// The words the text interpreter handles itself.
#[derive(Clone, Copy, Debug, PartialEq, Eq, Structural)]
pub enum Keyword {
    Colon,
    Semicolon,
    If,
    Then,
    Else,
    Begin,
    Until,
    While,
    Repeat,
    Postpone,
    Tick,
    BracketTick,
    Literal,
    Do,
    Loop,
    PlusLoop,
    /// Any other word.
    Other,
}

/// The keyword a lowercase name is.
pub open spec fn keyword_of(n: Seq<char>) -> Keyword {
    if n == ":"@ {
        Keyword::Colon
    } else if n == ";"@ {
        Keyword::Semicolon
    } else if n == "if"@ {
        Keyword::If
    } else if n == "then"@ {
        Keyword::Then
    } else if n == "else"@ {
        Keyword::Else
    } else if n == "begin"@ {
        Keyword::Begin
    } else if n == "until"@ {
        Keyword::Until
    } else if n == "while"@ {
        Keyword::While
    } else if n == "repeat"@ {
        Keyword::Repeat
    } else if n == "postpone"@ {
        Keyword::Postpone
    } else if n == "'"@ {
        Keyword::Tick
    } else if n == "[']"@ {
        Keyword::BracketTick
    } else if n == "literal"@ {
        Keyword::Literal
    } else if n == "do"@ {
        Keyword::Do
    } else if n == "loop"@ {
        Keyword::Loop
    } else if n == "+loop"@ {
        Keyword::PlusLoop
    } else {
        Keyword::Other
    }
}

/// Whether `n` is the text of literal `lit`.
fn is_text(n: &String, lit: &str) -> (b: bool)
    ensures
        b == (n@ == lit@),
{
    let l = lit.to_owned();
    *n == l
}

/// The keyword a lowercase name is.
fn classify(n: &String) -> (k: Keyword)
    ensures
        k == keyword_of(n@),
{
    if is_text(n, ":") {
        Keyword::Colon
    } else if is_text(n, ";") {
        Keyword::Semicolon
    } else if is_text(n, "if") {
        Keyword::If
    } else if is_text(n, "then") {
        Keyword::Then
    } else if is_text(n, "else") {
        Keyword::Else
    } else if is_text(n, "begin") {
        Keyword::Begin
    } else if is_text(n, "until") {
        Keyword::Until
    } else if is_text(n, "while") {
        Keyword::While
    } else if is_text(n, "repeat") {
        Keyword::Repeat
    } else if is_text(n, "postpone") {
        Keyword::Postpone
    } else if is_text(n, "'") {
        Keyword::Tick
    } else if is_text(n, "[']") {
        Keyword::BracketTick
    } else if is_text(n, "literal") {
        Keyword::Literal
    } else if is_text(n, "do") {
        Keyword::Do
    } else if is_text(n, "loop") {
        Keyword::Loop
    } else if is_text(n, "+loop") {
        Keyword::PlusLoop
    } else {
        Keyword::Other
    }
}

/// What compiling words read and change: the mode, the code and the
/// control stack of pending branch addresses.
#[verifier::ext_equal]
pub struct CompView {
    pub compiling: bool,
    pub ops: Seq<u8>,
    pub cdata: Seq<u64>,
    pub cs: Seq<usize>,
}

impl System {
    /// The part of the system compiling words change.
    pub open spec fn cv(&self) -> CompView {
        CompView { compiling: self.compiling, ops: self.code.ops@, cdata: self.code.data@, cs: self.control_stack@ }
    }
}

/// The code is consistent, small enough for its addresses to be `i64`
/// values, and every pending branch address is an address of it.
pub open spec fn cv_ok(c: CompView) -> bool {
    &&& c.ops.len() == c.cdata.len()
    &&& c.ops.len() < 0x4000_0000_0000_0000
    &&& forall|i: int| 0 <= i < c.cs.len() ==> #[trigger] c.cs[i] <= c.ops.len()
}

/// `op` with data `d` appended to the code.
pub open spec fn emit(c: CompView, op: Op, d: u64) -> CompView {
    CompView { ops: c.ops.push(op.code()), cdata: c.cdata.push(d), ..c }
}

/// The data cell at `a` replaced by `v`, if there is one.
pub open spec fn patched(c: CompView, a: usize, v: u64) -> CompView {
    CompView { cdata: if a < c.cdata.len() { c.cdata.update(a as int, v) } else { c.cdata }, ..c }
}

/// The relative offset from address `from` to `to`, less one, as a data cell.
pub open spec fn offset(to: usize, from: usize) -> u64 {
    ((to as i64) - (from as i64) - 1) as u64
}

/// A compile-only word used while not compiling, or a control stack
/// without the entry a word needs.
pub open spec fn abort() -> ForthError {
    exec_err(ForthErrorKind::Abort)
}

/// What a control-flow word (`IF` .. `+LOOP`, not `LITERAL`) does to the
/// compiling state, and what it reports. Each needs compiling mode and
/// fails with `Abort` otherwise, as it does when it finds the control stack
/// without the entries it takes. `DO` records the address of the loop's
/// body, to which `LOOP` and `+LOOP` jump back.
pub open spec fn control_word(k: Keyword, c: CompView) -> (CompView, ForthResult<()>) {
    let n = c.ops.len() as usize;
    let top = c.cs.last();
    if !c.compiling {
        (c, Err(abort()))
    } else {
        match k {
            Keyword::If => (CompView { cs: c.cs.push(n), ..emit(c, Op::JZ, 0) }, Ok(())),
            Keyword::Do => (CompView { cs: c.cs.push((n + 1) as usize), ..emit(c, Op::Do, 0) }, Ok(())),
            Keyword::Begin => (CompView { cs: c.cs.push(n), ..c }, Ok(())),
            Keyword::Then => if c.cs.len() == 0 {
                (c, Err(abort()))
            } else {
                (patched(CompView { cs: c.cs.drop_last(), ..c }, top, offset(n, top)), Ok(()))
            },
            Keyword::Else => if c.cs.len() == 0 {
                (c, Err(abort()))
            } else {
                let c1 = emit(CompView { cs: c.cs.drop_last(), ..c }, Op::Jump, 0);
                let c2 = patched(c1, top, ((n as i64) - (top as i64)) as u64);
                (CompView { cs: c2.cs.push(n), ..c2 }, Ok(()))
            },
            Keyword::Until => if c.cs.len() == 0 {
                (c, Err(abort()))
            } else {
                (emit(CompView { cs: c.cs.drop_last(), ..c }, Op::JZ, offset(top, n)), Ok(()))
            },
            Keyword::While => {
                let c1 = emit(c, Op::JZ, 0);
                if c.cs.len() == 0 {
                    (c1, Err(abort()))
                } else {
                    (CompView { cs: c.cs.push(n), ..c1 }, Ok(()))
                }
            },
            Keyword::Repeat => if c.cs.len() == 0 {
                (c, Err(abort()))
            } else if c.cs.len() == 1 {
                (CompView { cs: c.cs.drop_last(), ..c }, Err(abort()))
            } else {
                let w = top;
                let b = c.cs[c.cs.len() - 2];
                let c1 = emit(CompView { cs: c.cs.drop_last().drop_last(), ..c }, Op::Jump, offset(b, n));
                (patched(c1, w, offset((n + 1) as usize, w)), Ok(()))
            },
            Keyword::Loop => if c.cs.len() == 0 {
                (c, Err(abort()))
            } else {
                (emit(CompView { cs: c.cs.drop_last(), ..c }, Op::Loop, offset(top, n)), Ok(()))
            },
            _ => if c.cs.len() == 0 {
                (c, Err(abort()))
            } else {
                (emit(CompView { cs: c.cs.drop_last(), ..c }, Op::PLoop, offset(top, n)), Ok(()))
            },
        }
    }
}

/// The control-flow words.
pub open spec fn is_control_word(k: Keyword) -> bool {
    match k {
        Keyword::If | Keyword::Then | Keyword::Else | Keyword::Begin | Keyword::Until | Keyword::While
        | Keyword::Repeat | Keyword::Do | Keyword::Loop | Keyword::PlusLoop => true,
        _ => false,
    }
}

/// Runs a control-flow word, as `control_word` says.
fn run_control_word(k: Keyword, sys: &mut System) -> (r: ForthResult<()>)
    requires
        is_control_word(k),
        cv_ok(old(sys).cv()),
    ensures
        (final(sys).cv(), r) == control_word(k, old(sys).cv()),
        *final(sys) == (System { compiling: final(sys).compiling, code: final(sys).code, control_stack: final(sys).control_stack, ..*old(sys) }),
{
    if !sys.compiling {
        return Err(ForthError::new(ForthErrorKind::Abort, ForthPhase::Execution));
    }
    let n = sys.code.len();
    let ghost c = sys.cv();
    match k {
        Keyword::If => {
            sys.code.push(Op::JZ, 0);
            sys.control_stack.push(n);
            assert(sys.cv() =~= control_word(k, c).0);
            Ok(())
        },
        Keyword::Do => {
            sys.code.push(Op::Do, 0);
            // The loop goes back to the first instruction of its body.
            let body = sys.code.len();
            sys.control_stack.push(body);
            assert(sys.cv() =~= control_word(k, c).0);
            Ok(())
        },
        Keyword::Begin => {
            sys.control_stack.push(n);
            assert(sys.cv() =~= control_word(k, c).0);
            Ok(())
        },
        Keyword::Then => {
            let a = match sys.control_stack.pop() {
                Some(a) => a,
                None => {
                    return Err(ForthError::new(ForthErrorKind::Abort, ForthPhase::Execution));
                },
            };
            let delta = n as i64 - a as i64 - 1;
            sys.code.patch_data(a, delta as u64);
            assert(sys.cv() =~= control_word(k, c).0);
            Ok(())
        },
        Keyword::Else => {
            let a = match sys.control_stack.pop() {
                Some(a) => a,
                None => {
                    return Err(ForthError::new(ForthErrorKind::Abort, ForthPhase::Execution));
                },
            };
            sys.code.push(Op::Jump, 0);
            let delta = n as i64 - a as i64;
            sys.code.patch_data(a, delta as u64);
            sys.control_stack.push(n);
            assert(sys.cv() =~= control_word(k, c).0);
            Ok(())
        },
        Keyword::Until | Keyword::Loop | Keyword::PlusLoop => {
            let b = match sys.control_stack.pop() {
                Some(b) => b,
                None => {
                    return Err(ForthError::new(ForthErrorKind::Abort, ForthPhase::Execution));
                },
            };
            let op = match k {
                Keyword::Until => Op::JZ,
                Keyword::Loop => Op::Loop,
                _ => Op::PLoop,
            };
            let delta = b as i64 - n as i64 - 1;
            sys.code.push(op, delta as u64);
            assert(sys.cv() =~= control_word(k, c).0);
            Ok(())
        },
        Keyword::While => {
            sys.code.push(Op::JZ, 0);
            let b = match sys.control_stack.pop() {
                Some(b) => b,
                None => {
                    assert(sys.cv() =~= control_word(k, c).0);
                    return Err(ForthError::new(ForthErrorKind::Abort, ForthPhase::Execution));
                },
            };
            sys.control_stack.push(b);
            sys.control_stack.push(n);
            assert(sys.cv() =~= control_word(k, c).0);
            Ok(())
        },
        _ => {
            let w = match sys.control_stack.pop() {
                Some(w) => w,
                None => {
                    return Err(ForthError::new(ForthErrorKind::Abort, ForthPhase::Execution));
                },
            };
            let b = match sys.control_stack.pop() {
                Some(b) => b,
                None => {
                    assert(sys.cv() =~= control_word(k, c).0);
                    return Err(ForthError::new(ForthErrorKind::Abort, ForthPhase::Execution));
                },
            };
            let delta_back = b as i64 - n as i64 - 1;
            sys.code.push(Op::Jump, delta_back as u64);
            let after = sys.code.len();
            let delta_forward = after as i64 - w as i64 - 1;
            sys.code.patch_data(w, delta_forward as u64);
            assert(sys.cv() =~= control_word(k, c).0);
            Ok(())
        },
    }
}

/// Every word a word list binds exists.
pub open spec fn dict_consistent(d: Dictionary) -> bool {
    forall|l: int, k: Seq<char>| 0 <= l < d.wordlists@.len() && #[trigger] d.wordlists@[l].map().contains_key(k)
        ==> d.wordlists@[l].map()[k] < d.entries@.len()
}

/// `d1` is `d0` with word `idx` hidden or shown (when it exists).
pub open spec fn hidden_set(d0: Dictionary, d1: Dictionary, idx: usize, h: bool) -> bool {
    &&& d1.entries@.len() == d0.entries@.len()
    &&& forall|i: int| 0 <= i < d0.entries@.len() && i != idx ==> #[trigger] d1.entries@[i] == d0.entries@[i]
    &&& idx < d0.entries@.len() ==> d1.entries@[idx as int]@ == (WordEntryView { is_hidden: h, ..d0.entries@[idx as int]@ })
    &&& d1.wordlists@ == d0.wordlists@
    &&& d1.search_order@ == d0.search_order@
    &&& d1.current == d0.current
    &&& d1.latest_word == d0.latest_word
}

/// `d1` is `d0` with a new hidden word `name` of kind `kind`, bound in the
/// current list under its lowercase name, and made the latest word.
pub open spec fn word_defined(d0: Dictionary, d1: Dictionary, name: Seq<char>, kind: WordKind) -> bool {
    let r = d0.entries@.len();
    &&& d1.entries@.len() == r + 1
    &&& forall|i: int| 0 <= i < r ==> #[trigger] d1.entries@[i] == d0.entries@[i]
    &&& d1.entries@[r as int]@ == (WordEntryView { name, kind, is_immediate: false, is_hidden: true })
    &&& d1.wordlists@.len() == d0.wordlists@.len()
    &&& d1.wordlists@[d0.current as int].map() == d0.wordlists@[d0.current as int].map().insert(lowercase(name), r as usize)
    &&& forall|i: int| 0 <= i < d0.wordlists@.len() && i != d0.current ==> #[trigger] d1.wordlists@[i] == d0.wordlists@[i]
    &&& d1.search_order@ == d0.search_order@
    &&& d1.current == d0.current
    &&& d1.latest_word == Some(r as usize)
}

/// The word a name finds.
pub open spec fn found(s: System, name: Seq<char>) -> Option<usize> {
    search(s.dict.wordlists@, s.dict.entries@, s.dict.search_order@, lowercase(name))
}

/// `s1` is `s0` with only the compiling state changed.
pub open spec fn only_cv(s0: System, s1: System) -> bool {
    *&s1 == (System { compiling: s1.compiling, code: s1.code, control_stack: s1.control_stack, ..s0 })
}

/// A number met by the text interpreter: compiled as a literal while
/// compiling, pushed otherwise (see `Vm::handle_literal`).
pub open spec fn literal_post(v0: Vm, v1: Vm, s0: System, s1: System, n: i64, r: ForthResult<()>) -> bool {
    if s0.compiling {
        &&& r is Ok
        &&& v1 == v0
        &&& s1.cv() == emit(s0.cv(), Op::Push, n as u64)
        &&& only_cv(s0, s1)
    } else {
        &&& s1 == s0
        &&& v1.wf()
        &&& v1@ == pushed(v0@, s0.sv(), seq![n]).vm
        &&& v1.path_trace == v0.path_trace
        &&& r == match push_res(v0.data(), seq![n]) {
            Ok(_) => Ok::<(), ForthError>(()),
            Err(e) => Err(e),
        }
    }
}

/// What the text interpreter does with a word that is not one of its
/// keywords: a word the dictionary finds is compiled (a primitive as its
/// instruction, any other word as a call) while compiling unless it is
/// immediate, and executed otherwise; a name the dictionary does not find
/// is a decimal number or an `UnknownToken` error.
pub open spec fn word_post(v0: Vm, v1: Vm, s0: System, s1: System, w: Seq<char>, r: ForthResult<()>) -> bool {
    match found(s0, w) {
        Some(idx) => {
            let e = s0.dict.entries@[idx as int];
            if s0.compiling && !e.is_immediate {
                &&& r is Ok
                &&& v1 == v0
                &&& s1.cv() == match e.kind {
                    WordKind::Primitive(c) => emit(s0.cv(), decode_op(c as u8).unwrap(), 0),
                    _ => emit(s0.cv(), Op::Call, idx as u64),
                }
                &&& only_cv(s0, s1)
            } else {
                let o = word_spec(v0@, s0.sv(), s0.env(), idx);
                &&& reached(v0, v1, s0, s1, o)
                &&& r == match o.res {
                    Ok(_) => Ok::<(), ForthError>(()),
                    Err(e) => Err(e),
                }
            }
        },
        None => match parse_radix(w, 10) {
            Some(n) => literal_post(v0, v1, s0, s1, n, r),
            None => r == Err::<(), ForthError>(exec_err(ForthErrorKind::UnknownToken)) && v1 == v0 && s1 == s0,
        },
    }
}

/// Running the text interpreter on `t` does not hit a fault: a word it
/// executes does not fault (see `word_ok`), and a primitive it compiles has
/// an instruction code.
pub open spec fn token_ok(v: Vm, s: System, t: TokenView) -> bool {
    match t {
        TokenView::Word(w) => keyword_of(lowercase(w)) == Keyword::Other ==> match found(s, w) {
            Some(idx) => {
                let e = s.dict.entries@[idx as int];
                if s.compiling && !e.is_immediate {
                    e.kind matches WordKind::Primitive(c) ==> decode_op(c as u8) is Some
                } else {
                    word_ok(v@, s.sv(), s.env(), idx)
                }
            },
            None => true,
        },
        _ => true,
    }
}

/// `;` — ends a definition: fails with `Abort` while a branch is still
/// pending; otherwise compiles a return, shows the latest word again and
/// leaves compiling mode.
pub open spec fn semicolon_post(s0: System, s1: System, r: ForthResult<()>) -> bool {
    if s0.control_stack@.len() > 0 {
        r == Err::<(), ForthError>(abort()) && s1 == s0
    } else {
        &&& r is Ok
        &&& s1.cv() == (CompView { compiling: false, ..emit(s0.cv(), Op::Ret, 0) })
        &&& match s0.dict.latest_word {
            Some(idx) => hidden_set(s0.dict, s1.dict, idx, false),
            None => s1.dict == s0.dict,
        }
        &&& s1 == (System { compiling: s1.compiling, code: s1.code, dict: s1.dict, ..s0 })
    }
}

/// `LITERAL` — compiles the popped value as a literal (compiling only).
pub open spec fn literal_word_post(v0: Vm, v1: Vm, s0: System, s1: System, r: ForthResult<()>) -> bool {
    if !s0.compiling {
        r == Err::<(), ForthError>(abort()) && v1 == v0 && s1 == s0
    } else if v0.data().len() == 0 {
        r == Err::<(), ForthError>(exec_err(ForthErrorKind::StackUnderflow)) && v1@ == v0@ && v1.wf()
            && v1.path_trace == v0.path_trace && s1 == s0
    } else {
        &&& r is Ok
        &&& v1.wf()
        &&& v1@ == crate::vm::semantics::dropped(v0@, 1)
        &&& v1.path_trace == v0.path_trace
        &&& s1.cv() == emit(s0.cv(), Op::Push, v0.data().last() as u64)
        &&& only_cv(s0, s1)
    }
}

/// `:` — reads the next token (see `lex`); a name starts a new definition:
/// compiling mode, and the word added hidden with its code at the end of
/// the code. Any other token is passed over.
pub open spec fn colon_post(s0: System, s1: System, nt: ForthResult<Option<TokenView>>, r: ForthResult<()>) -> bool {
    match nt {
        Err(e) => r == Err::<(), ForthError>(e) && s1 == s0,
        Ok(Some(TokenView::Word(nn))) => {
            &&& r is Ok
            &&& s1.compiling
            &&& word_defined(s0.dict, s1.dict, nn, WordKind::Defined(s0.code.ops@.len() as usize))
            &&& s1 == (System { compiling: s1.compiling, dict: s1.dict, ..s0 })
        },
        Ok(_) => r is Ok && s1 == s0,
    }
}

/// `POSTPONE` (compiling only) — reads the next token; for a word that the
/// dictionary finds, compiles a call to it when it is immediate, and
/// otherwise code that compiles a call to it (its index, then a call of
/// `COMPILE,`, whose absence is an `Abort`).
pub open spec fn postpone_post(s0: System, s1: System, nt: ForthResult<Option<TokenView>>, r: ForthResult<()>) -> bool {
    match nt {
        Err(e) => r == Err::<(), ForthError>(e) && s1 == s0,
        Ok(Some(TokenView::Word(wn))) => match found(s0, wn) {
            Some(idx) => {
                &&& only_cv(s0, s1)
                &&& if s0.dict.entries@[idx as int].is_immediate {
                    r is Ok && s1.cv() == emit(s0.cv(), Op::Call, idx as u64)
                } else {
                    let c1 = emit(s0.cv(), Op::Push, idx as u64);
                    match found(s0, "compile,"@) {
                        Some(cc) => r is Ok && s1.cv() == emit(c1, Op::Call, cc as u64),
                        None => r == Err::<(), ForthError>(abort()) && s1.cv() == c1,
                    }
                }
            },
            None => r is Ok && s1 == s0,
        },
        Ok(_) => r is Ok && s1 == s0,
    }
}

/// `'` and `[']` — read the next token; the index of the word it names is
/// compiled as a literal by `[']` while compiling and pushed otherwise; an
/// unknown name is an `UnknownToken` error.
pub open spec fn tick_post(v0: Vm, v1: Vm, s0: System, s1: System, bracket: bool, nt: ForthResult<Option<TokenView>>, r: ForthResult<()>) -> bool {
    match nt {
        Err(e) => r == Err::<(), ForthError>(e) && s1 == s0 && v1 == v0,
        Ok(Some(TokenView::Word(wn))) => match found(s0, wn) {
            Some(idx) => if s0.compiling && bracket {
                r is Ok && v1 == v0 && s1.cv() == emit(s0.cv(), Op::Push, idx as u64) && only_cv(s0, s1)
            } else {
                &&& s1 == s0
                &&& v1.wf()
                &&& v1@ == pushed(v0@, s0.sv(), seq![idx as i64]).vm
                &&& v1.path_trace == v0.path_trace
                &&& r == match push_res(v0.data(), seq![idx as i64]) {
                    Ok(_) => Ok::<(), ForthError>(()),
                    Err(e) => Err(e),
                }
            },
            None => r == Err::<(), ForthError>(exec_err(ForthErrorKind::UnknownToken)) && s1 == s0 && v1 == v0,
        },
        Ok(_) => r is Ok && s1 == s0 && v1 == v0,
    }
}

/// What the text interpreter does with one token (see `interpret_token`).
pub open spec fn interp_post(
    v0: Vm,
    v1: Vm,
    s0: System,
    s1: System,
    p0: Seq<crate::compiler::parser::SrcView>,
    p1: Seq<crate::compiler::parser::SrcView>,
    base: i64,
    t: TokenView,
    r: ForthResult<()>,
) -> bool {
    match t {
        TokenView::Number(n) => p1 == p0 && literal_post(v0, v1, s0, s1, n, r),
        TokenView::Word(w) => {
            let k = keyword_of(lowercase(w));
            let (p2, nt) = lex(p0, base);
            if is_control_word(k) {
                &&& p1 == p0
                &&& v1 == v0
                &&& (s1.cv(), r) == control_word(k, s0.cv())
                &&& only_cv(s0, s1)
            } else if k == Keyword::Semicolon {
                p1 == p0 && v1 == v0 && semicolon_post(s0, s1, r)
            } else if k == Keyword::Literal {
                p1 == p0 && literal_word_post(v0, v1, s0, s1, r)
            } else if k == Keyword::Colon {
                p1 == p2 && v1 == v0 && colon_post(s0, s1, nt, r)
            } else if k == Keyword::Postpone {
                &&& v1 == v0
                &&& if !s0.compiling {
                    p1 == p0 && r == Err::<(), ForthError>(abort()) && s1 == s0
                } else {
                    p1 == p2 && postpone_post(s0, s1, nt, r)
                }
            } else if k == Keyword::Tick || k == Keyword::BracketTick {
                p1 == p2 && tick_post(v0, v1, s0, s1, k == Keyword::BracketTick, nt, r)
            } else {
                p1 == p0 && word_post(v0, v1, s0, s1, w, r)
            }
        },
        _ => p1 == p0 && r is Ok && v1 == v0 && s1 == s0,
    }
}

/// The conditions under which the text interpreter is run: a sound machine,
/// code and dictionary, compiling state within `cv_ok`, and a tokenizer in
/// a valid base.
pub open spec fn interp_ready(v: Vm, s: System, p: Parser) -> bool {
    &&& v.wf()
    &&& s.code.wf()
    &&& s.dict.wf()
    &&& dict_consistent(s.dict)
    &&& cv_ok(s.cv())
    &&& p.wf()
    &&& 2 <= (p.base as u32) <= 36
}

impl Vm {
    /// `:` (see `colon_post`).
    fn run_colon(sys: &mut System, parser: &mut Parser) -> (r: ForthResult<()>)
        requires
            old(sys).dict.wf(),
            old(parser).wf(),
            2 <= (old(parser).base as u32) <= 36,
        ensures
            final(parser).wf(),
            final(parser).base == old(parser).base,
            ({
                let (p2, nt) = lex(old(parser).sources(), old(parser).base);
                final(parser).sources() == p2 && colon_post(*old(sys), *final(sys), nt, r)
            }),
    {
        let next = parser.next_token();
        match next {
            Err(e) => Err(e),
            Ok(Some(Token::Word(new_name))) => {
                sys.compiling = true;
                let at = sys.code.len();
                let idx = sys.dict.insert(new_name, WordKind::Defined(at));
                sys.dict.set_hidden(idx, true);
                Ok(())
            },
            Ok(_) => Ok(()),
        }
    }

    /// `;` (see `semicolon_post`).
    fn run_semicolon(sys: &mut System) -> (r: ForthResult<()>)
        ensures
            semicolon_post(*old(sys), *final(sys), r),
    {
        if sys.control_stack.len() > 0 {
            return Err(ForthError::new(ForthErrorKind::Abort, ForthPhase::Execution));
        }
        sys.code.push(Op::Ret, 0);
        if let Some(idx) = sys.dict.latest_word {
            sys.dict.set_hidden(idx, false);
        }
        sys.compiling = false;
        assert(sys.cv() =~= (CompView { compiling: false, ..emit(old(sys).cv(), Op::Ret, 0) }));
        Ok(())
    }

    /// `LITERAL` (see `literal_word_post`).
    fn run_literal(&mut self, sys: &mut System) -> (r: ForthResult<()>)
        requires
            old(self).wf(),
        ensures
            literal_word_post(*old(self), *final(self), *old(sys), *final(sys), r),
    {
        if !sys.compiling {
            return Err(ForthError::new(ForthErrorKind::Abort, ForthPhase::Execution));
        }
        let val = self.d_pop()?;
        assert(self@ =~= crate::vm::semantics::dropped(old(self)@, 1));
        sys.code.push(Op::Push, val as u64);
        Ok(())
    }

    /// `POSTPONE` (see `postpone_post`).
    fn run_postpone(sys: &mut System, parser: &mut Parser) -> (r: ForthResult<()>)
        requires
            old(sys).dict.wf(),
            dict_consistent(old(sys).dict),
            old(sys).compiling,
            old(parser).wf(),
            2 <= (old(parser).base as u32) <= 36,
        ensures
            final(parser).wf(),
            final(parser).base == old(parser).base,
            ({
                let (p2, nt) = lex(old(parser).sources(), old(parser).base);
                final(parser).sources() == p2 && postpone_post(*old(sys), *final(sys), nt, r)
            }),
    {
        let next = parser.next_token();
        match next {
            Err(e) => Err(e),
            Ok(Some(Token::Word(word_name))) => {
                match sys.dict.lookup(word_name.as_str()) {
                    Some(idx) => {
                        proof {
                            lemma_found_exists(sys.dict, word_name@);
                        }
                        if sys.dict.entries[idx].is_immediate {
                            sys.code.push(Op::Call, idx as u64);
                            Ok(())
                        } else {
                            sys.code.push(Op::Push, idx as u64);
                            let cc = match sys.dict.lookup("compile,") {
                                Some(c) => c,
                                None => {
                                    return Err(ForthError::new(ForthErrorKind::Abort, ForthPhase::Execution));
                                },
                            };
                            sys.code.push(Op::Call, cc as u64);
                            Ok(())
                        }
                    },
                    None => Ok(()),
                }
            },
            Ok(_) => Ok(()),
        }
    }

    /// `'` and `[']` (see `tick_post`).
    fn run_tick(&mut self, sys: &mut System, parser: &mut Parser, bracket: bool) -> (r: ForthResult<()>)
        requires
            old(self).wf(),
            old(sys).dict.wf(),
            old(parser).wf(),
            2 <= (old(parser).base as u32) <= 36,
        ensures
            final(parser).wf(),
            final(parser).base == old(parser).base,
            ({
                let (p2, nt) = lex(old(parser).sources(), old(parser).base);
                final(parser).sources() == p2 && tick_post(*old(self), *final(self), *old(sys), *final(sys), bracket, nt, r)
            }),
    {
        let next = parser.next_token();
        match next {
            Err(e) => Err(e),
            Ok(Some(Token::Word(word_name))) => {
                match sys.dict.lookup(word_name.as_str()) {
                    Some(idx) => {
                        if sys.compiling && bracket {
                            sys.code.push(Op::Push, idx as u64);
                            Ok(())
                        } else {
                            let vals = vec![idx as i64];
                            assert(vals@ =~= seq![idx as i64]);
                            self.push_values(&vals)
                        }
                    },
                    None => Err(ForthError::new(ForthErrorKind::UnknownToken, ForthPhase::Execution)),
                }
            },
            Ok(_) => Ok(()),
        }
    }
}

impl Vm {
    /// A word that is not a keyword (see `word_post`).
    fn run_word(&mut self, sys: &mut System, w: &String) -> (r: ForthResult<()>)
        requires
            old(self).wf(),
            old(sys).code.wf(),
            old(sys).dict.wf(),
            dict_consistent(old(sys).dict),
            keyword_of(lowercase(w@)) == Keyword::Other ==> token_ok(*old(self), *old(sys), TokenView::Word(w@)),
            keyword_of(lowercase(w@)) == Keyword::Other,
        ensures
            word_post(*old(self), *final(self), *old(sys), *final(sys), w@, r),
    {
        proof {
            lemma_found_exists(sys.dict, w@);
        }
        match sys.dict.lookup(w.as_str()) {
            Some(idx) => {
                let imm = sys.dict.entries[idx].is_immediate;
                if sys.compiling && !imm {
                    match sys.dict.entries[idx].kind {
                        WordKind::Primitive(c) => {
                            let op = Op::from_u8(c as u8).unwrap();
                            sys.code.push(op, 0);
                        },
                        _ => {
                            sys.code.push(Op::Call, idx as u64);
                        },
                    }
                    Ok(())
                } else {
                    self.execute_word(idx, sys)
                }
            },
            None => match from_str_radix(w.as_str(), 10) {
                Some(v) => self.handle_literal(v, sys),
                None => Err(ForthError::new(ForthErrorKind::UnknownToken, ForthPhase::Execution)),
            },
        }
    }

    /// Handles one token of source text, as `interp_post` says: a keyword
    /// (`:` `;` `IF` `THEN` `ELSE` `BEGIN` `UNTIL` `WHILE` `REPEAT`
    /// `POSTPONE` `'` `[']` `LITERAL` `DO` `LOOP` `+LOOP`, in any case) does
    /// its compiling work, reading a further token where it takes a name; a
    /// number is compiled or pushed; any other word is compiled or
    /// executed. Executing a colon definition enters it with a nested run
    /// recorded (see `word_spec`); the caller runs it to its end before the
    /// next token. A string is passed over. A float is the caller's to turn
    /// into bits (see `handle_float`).
    pub fn interpret_token(&mut self, sys: &mut System, parser: &mut Parser, token: Token) -> (r: ForthResult<()>)
        requires
            interp_ready(*old(self), *old(sys), *old(parser)),
            !(token is Float),
            token_ok(*old(self), *old(sys), token@),
        ensures
            final(parser).wf(),
            final(parser).base == old(parser).base,
            interp_post(*old(self), *final(self), *old(sys), *final(sys), old(parser).sources(), final(parser).sources(), old(parser).base, token@, r),
    {
        match token {
            Token::Word(name) => {
                let name_lower = to_lowercase(name.as_str());
                let k = classify(&name_lower);
                match k {
                    Keyword::If | Keyword::Then | Keyword::Else | Keyword::Begin | Keyword::Until | Keyword::While
                    | Keyword::Repeat | Keyword::Do | Keyword::Loop | Keyword::PlusLoop => run_control_word(k, sys),
                    Keyword::Semicolon => Self::run_semicolon(sys),
                    Keyword::Literal => self.run_literal(sys),
                    Keyword::Colon => Self::run_colon(sys, parser),
                    Keyword::Postpone => {
                        if !sys.compiling {
                            return Err(ForthError::new(ForthErrorKind::Abort, ForthPhase::Execution));
                        }
                        Self::run_postpone(sys, parser)
                    },
                    Keyword::Tick => self.run_tick(sys, parser, false),
                    Keyword::BracketTick => self.run_tick(sys, parser, true),
                    Keyword::Other => self.run_word(sys, &name),
                }
            },
            Token::Number(v) => self.handle_literal(v, sys),
            _ => Ok(()),
        }
    }

    /// A float met by the text interpreter, given by its bits: compiled as a
    /// float literal while compiling, pushed on the float stack otherwise.
    pub fn handle_float(&mut self, sys: &mut System, bits: u64) -> (r: ForthResult<()>)
        ensures
            old(sys).compiling ==> r is Ok && *final(self) == *old(self)
                && final(sys).code.ops@ == old(sys).code.ops@.push(Op::PushF.code())
                && final(sys).code.data@ == old(sys).code.data@.push(bits)
                && *final(sys) == (System { code: final(sys).code, ..*old(sys) }),
            !old(sys).compiling ==> *final(sys) == *old(sys)
                && *final(self) == (Vm { f_stack: final(self).f_stack, ..*old(self) })
                && (old(self).f_stack@.len() < crate::vm::stack::R_STACK_LIMIT ==> r is Ok && final(self).f_stack@ == old(self).f_stack@.push(bits))
                && (old(self).f_stack@.len() >= crate::vm::stack::R_STACK_LIMIT ==> r == Err::<(), ForthError>(exec_err(ForthErrorKind::StackOverflow))
                    && final(self).f_stack@ == old(self).f_stack@),
    {
        if sys.compiling {
            sys.code.push(Op::PushF, bits);
            Ok(())
        } else {
            self.f_push_bits(bits)
        }
    }

    /// Whether running the text interpreter on `token` is free of faults
    /// (see `token_ok`).
    pub fn token_can_run(&self, sys: &System, token: &Token) -> (b: bool)
        requires
            self.wf(),
            sys.dict.wf(),
            dict_consistent(sys.dict),
        ensures
            b == token_ok(*self, *sys, token@),
    {
        match token {
            Token::Word(name) => {
                let name_lower = to_lowercase(name.as_str());
                if let Keyword::Other = classify(&name_lower) {
                    proof {
                        lemma_found_exists(sys.dict, name@);
                    }
                    match sys.dict.lookup(name.as_str()) {
                        Some(idx) => {
                            if sys.compiling && !sys.dict.entries[idx].is_immediate {
                                match sys.dict.entries[idx].kind {
                                    WordKind::Primitive(c) => Op::from_u8(c as u8).is_some(),
                                    _ => true,
                                }
                            } else {
                                self.word_can_run(sys, idx)
                            }
                        },
                        None => true,
                    }
                } else {
                    true
                }
            },
            _ => true,
        }
    }
}

/// Every word index the pairs hold is below `n`.
pub open spec fn pairs_below(v: Seq<(String, usize)>, n: nat) -> bool {
    forall|i: int| 0 <= i < v.len() ==> #[trigger] v[i].1 < n
}

/// A map built from pairs below `n` binds only indices below `n`.
proof fn lemma_pairs_below(v: Seq<(String, usize)>, n: nat)
    requires
        pairs_below(v, n),
    ensures
        forall|k: Seq<char>| #[trigger] names_map(v).contains_key(k) ==> names_map(v)[k] < n,
    decreases v.len(),
{
    if v.len() > 0 {
        assert(pairs_below(v.drop_last(), n)) by {
            assert forall|i: int| 0 <= i < v.drop_last().len() implies #[trigger] v.drop_last()[i].1 < n by {
                assert(v.drop_last()[i] == v[i]);
            }
        }
        lemma_pairs_below(v.drop_last(), n);
        assert(v[v.len() - 1].1 < n);
        assert forall|k: Seq<char>| #[trigger] names_map(v).contains_key(k) implies names_map(v)[k] < n by {
            if k != v.last().0@ {
                assert(names_map(v.drop_last()).contains_key(k));
            }
        }
    }
}

/// Every name-to-word binding recorded in every word list (shadowed ones
/// included) names an existing word.
pub open spec fn bindings_below(d: Dictionary) -> bool {
    forall|l: int| 0 <= l < d.wordlists@.len() ==> #[trigger] pairs_below(d.wordlists@[l].words@, d.entries@.len())
}

impl Dictionary {
    /// Checks that every binding recorded in every word list names an
    /// existing word (see `bindings_below`); `true` ensures
    /// `dict_consistent`.
    pub fn bindings_exist(&self) -> (b: bool)
        ensures
            b == bindings_below(*self),
            b ==> dict_consistent(*self),
    {
        let n = self.entries.len();
        let mut l: usize = 0;
        while l < self.wordlists.len()
            invariant
                l <= self.wordlists@.len(),
                n == self.entries@.len(),
                forall|j: int| 0 <= j < l ==> #[trigger] pairs_below(self.wordlists@[j].words@, n as nat),
            decreases self.wordlists.len() - l,
        {
            let mut i: usize = 0;
            while i < self.wordlists[l].words.len()
                invariant
                    l < self.wordlists@.len(),
                    i <= self.wordlists@[l as int].words@.len(),
                    n == self.entries@.len(),
                    forall|k: int| 0 <= k < i ==> #[trigger] self.wordlists@[l as int].words@[k].1 < n,
                decreases self.wordlists@[l as int].words@.len() - i,
            {
                if self.wordlists[l].words[i].1 >= n {
                    assert(!pairs_below(self.wordlists@[l as int].words@, n as nat));
                    return false;
                }
                i = i + 1;
            }
            assert(pairs_below(self.wordlists@[l as int].words@, n as nat));
            l = l + 1;
        }
        proof {
            assert forall|li: int, k: Seq<char>| 0 <= li < self.wordlists@.len() && #[trigger] self.wordlists@[li].map().contains_key(k)
                implies self.wordlists@[li].map()[k] < self.entries@.len() by {
                lemma_pairs_below(self.wordlists@[li].words@, n as nat);
            }
        }
        true
    }
}

/// A word the dictionary finds exists.
proof fn lemma_found_exists(d: Dictionary, name: Seq<char>)
    requires
        d.wf(),
        dict_consistent(d),
    ensures
        search(d.wordlists@, d.entries@, d.search_order@, lowercase(name)) matches Some(idx) ==> idx < d.entries@.len(),
{
    lemma_search_in(d, d.search_order@, lowercase(name));
}

/// What `search` finds is bound in one of the lists.
proof fn lemma_search_in(d: Dictionary, order: Seq<usize>, key: Seq<char>)
    requires
        dict_consistent(d),
        forall|i: int| 0 <= i < order.len() ==> #[trigger] order[i] < d.wordlists@.len(),
    ensures
        search(d.wordlists@, d.entries@, order, key) matches Some(idx) ==> idx < d.entries@.len(),
    decreases order.len(),
{
    if order.len() > 0 {
        let l = order.last() as int;
        assert(order[order.len() - 1] < d.wordlists@.len());
        lemma_search_in(d, order.drop_last(), key);
    }
}

} // verus!
