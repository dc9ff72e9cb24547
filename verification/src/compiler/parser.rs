use crate::common::error::{ForthResult, ForthError, ForthErrorKind, ForthPhase};
use vstd::prelude::*;
use vstd::string::StrSliceExecFns;
use vstd::string::StringSliceAdditionalSpecFns;

verus! {

/// A token of source text. A float literal is kept as its text: turning it
/// into a number is left to the caller.
#[derive(Debug, Clone, PartialEq)]
pub enum Token {
    Word(String),
    Number(i64),
    Float(String),
    StringLiteral(String),
}

/// The mathematical value of a `Token`.
pub enum TokenView {
    Word(Seq<char>),
    Number(i64),
    Float(Seq<char>),
    StringLiteral(Seq<char>),
}

impl View for Token {
    type V = TokenView;

    open spec fn view(&self) -> TokenView {
        match self {
            Token::Word(s) => TokenView::Word(s@),
            Token::Number(n) => TokenView::Number(*n),
            Token::Float(s) => TokenView::Float(s@),
            Token::StringLiteral(s) => TokenView::StringLiteral(s@),
        }
    }
}

/// A text being read and the byte offset reached in it.
pub struct InputSource {
    pub text: String,
    pub ptr: usize,
}

/// The tokenizer: a stack of input sources, read from the last, and the
/// number base, with the expression that reads tokens.
pub struct Parser {
    pub input_stack: Vec<InputSource>,
    pub base: i64,
    pub token_re: regex::Regex,
}

/// A compiled regular expression.
#[verifier::external_type_specification]
#[verifier::external_body]
pub struct ExRegex(regex::Regex);

/// The pattern a regular expression was compiled from by `Regex::new`
/// (with the default options); `None` stands for an expression built in
/// another way, such as through `RegexBuilder` with other options.
pub uninterp spec fn regex_source(re: regex::Regex) -> Option<Seq<char>>;

/// The parts of a token match: where the whole match ends (a byte offset)
/// and the text of each named group that took part.
pub struct TokenMatch {
    pub end: Option<usize>,
    pub word: Option<String>,
    pub int: Option<String>,
    pub num: Option<String>,
    pub hex: Option<String>,
    pub text: Option<String>,
}

/// The mathematical value of a `TokenMatch`.
pub struct TokenMatchView {
    pub end: Option<usize>,
    pub word: Option<Seq<char>>,
    pub int: Option<Seq<char>>,
    pub num: Option<Seq<char>>,
    pub hex: Option<Seq<char>>,
    pub text: Option<Seq<char>>,
}

/// The view of an optional string.
pub open spec fn opt_view(s: Option<String>) -> Option<Seq<char>> {
    match s {
        Some(x) => Some(x@),
        None => None,
    }
}

impl View for TokenMatch {
    type V = TokenMatchView;

    open spec fn view(&self) -> TokenMatchView {
        TokenMatchView {
            end: self.end,
            word: opt_view(self.word),
            int: opt_view(self.int),
            num: opt_view(self.num),
            hex: opt_view(self.hex),
            text: opt_view(self.text),
        }
    }
}

/// What `Regex::captures` finds for pattern `pattern` in the text whose
/// UTF-8 bytes are `s`.
pub uninterp spec fn captures_of(pattern: Seq<char>, s: Seq<u8>) -> Option<TokenMatchView>;

/// The token pattern: leading white space, then a `\` comment, a
/// parenthesized comment, a string, a hex number, a decimal float, an
/// integer or a word. A number must end at white space or the end of the
/// text (it takes one white-space character with it), so that words such
/// as `1+` and `0=` are read whole.
pub open spec fn token_pattern() -> Seq<char> {
    TOKEN_PATTERN@
}

/// The source of the token pattern.
pub const TOKEN_PATTERN: &'static str = r#"(?x)
            ^\s*
            (?:
                \\[^\n]*\n?
                |
                \((?:[^)]*)\)
                |
                "(?P<str>(?:[^"\\]|\\.)*)"
                |
                (?P<hex>0x[0-9a-fA-F]+)(?:\s|$)
                |
                (?P<num>-?\d+\.\d+)(?:\s|$)
                |
                (?P<int>-?\d+)(?:\s|$)
                |
                (?P<word>\S+)
            )
        "#;

/// Calls `Regex::new`: on success the expression compiled from `pattern`
/// with the default options. The error is dropped.
#[verifier::external_body]
fn regex_new(pattern: &str) -> (r: Option<regex::Regex>)
    ensures
        r matches Some(re) ==> regex_source(re) == Some(pattern@),
{
    regex::Regex::new(pattern).ok()
}

/// Calls `Regex::captures` on `s` and reads the match out: the end of the
/// whole match and the text of the groups `word`, `int`, `num`, `hex` and
/// `str`. For an expression made by `Regex::new` the result depends on its
/// pattern and `s` alone, and is named by `captures_of`; the regex crate
/// documents that a match ends inside the text.
#[verifier::external_body]
fn scan_token(re: &regex::Regex, s: &str) -> (r: Option<TokenMatch>)
    requires
        regex_source(*re) is Some,
    ensures
        match r {
            Some(m) => captures_of(regex_source(*re)->0, s.spec_bytes()) == Some(m@)
                && (m.end matches Some(e) ==> e <= s.spec_bytes().len()),
            None => captures_of(regex_source(*re)->0, s.spec_bytes()) is None,
        },
{
    let c = re.captures(s)?;
    Some(TokenMatch {
        end: c.get(0).map(|m| m.end()),
        word: c.name("word").map(|m| m.as_str().to_string()),
        int: c.name("int").map(|m| m.as_str().to_string()),
        num: c.name("num").map(|m| m.as_str().to_string()),
        hex: c.name("hex").map(|m| m.as_str().to_string()),
        text: c.name("str").map(|m| m.as_str().to_string()),
    })
}

/// Calls `str::get(ptr..)`: the text from byte `ptr` on exactly when `ptr`
/// is a character boundary within it.
#[verifier::external_body]
fn text_from(s: &str, ptr: usize) -> (r: Option<&str>)
    ensures
        match r {
            Some(t) => ptr <= s.spec_bytes().len() && vstd::utf8::is_char_boundary(s.spec_bytes(), ptr as int)
                && t.spec_bytes() == s.spec_bytes().subrange(ptr as int, s.spec_bytes().len() as int),
            None => !vstd::utf8::is_char_boundary(s.spec_bytes(), ptr as int),
        },
{
    s.get(ptr..)
}

// ---------------------------------------------------------------------------
// Reading tokens.

/// An input source as bytes and the offset reached.
pub struct SrcView {
    pub bytes: Seq<u8>,
    pub ptr: nat,
}

/// The UTF-8 bytes of a string.
pub open spec fn utf8(s: Seq<char>) -> Seq<u8> {
    vstd::utf8::encode_utf8(s)
}

/// The source with its offset moved to `p`.
pub open spec fn moved(st: Seq<SrcView>, p: nat) -> Seq<SrcView> {
    st.update(st.len() - 1, SrcView { bytes: st.last().bytes, ptr: p })
}

/// The bytes left to read in the top source.
pub open spec fn remaining(st: Seq<SrcView>) -> nat {
    if st.len() > 0 && st.last().ptr < st.last().bytes.len() {
        (st.last().bytes.len() - st.last().ptr) as nat
    } else {
        0
    }
}

/// A tokenizer error.
pub open spec fn parse_err() -> ForthError {
    ForthError { kind: ForthErrorKind::UnknownToken, phase: ForthPhase::Parsing }
}

/// The next token of the sources `st` (read from the last) in base
/// `base`, and the sources after it. A source that is used up is dropped.
/// At the reached offset the token pattern is matched: a comment is passed
/// over; a word, number, float or string is the token, the offset moving
/// past it; where the pattern does not match, one byte is passed over (as
/// is an offset inside a character, which the offset can only reach that
/// way). A number that does not fit an `i64` is an `UnknownToken` error.
pub open spec fn lex(st: Seq<SrcView>, base: i64) -> (Seq<SrcView>, ForthResult<Option<TokenView>>)
    decreases st.len(), remaining(st),
{
    if st.len() == 0 {
        (st, Ok(None))
    } else {
        let top = st.last();
        if top.ptr >= top.bytes.len() {
            lex(st.drop_last(), base)
        } else if !vstd::utf8::is_char_boundary(top.bytes, top.ptr as int) {
            lex(moved(st, top.ptr + 1), base)
        } else {
            let rest = top.bytes.subrange(top.ptr as int, top.bytes.len() as int);
            match captures_of(token_pattern(), rest) {
                None => lex(moved(st, top.ptr + 1), base),
                Some(m) => match m.end {
                    None => (st, Err(parse_err())),
                    Some(e) => {
                        let st2 = moved(st, top.ptr + e as nat);
                        match match_token(m, base) {
                            Some(r) => (st2, r),
                            None => if e == 0 || top.ptr + e > top.bytes.len() {
                                lex(moved(st, top.ptr + 1), base)
                            } else {
                                lex(st2, base)
                            },
                        }
                    },
                },
            }
        }
    }
}

/// What a match of the token pattern gives, read at `base`: a word, a
/// number, a float or a string, or an `UnknownToken` error for a number
/// that does not fit an `i64`; `None` when no group took part (a comment
/// or white space, which is passed over).
pub open spec fn match_token(m: TokenMatchView, base: i64) -> Option<ForthResult<Option<TokenView>>> {
    if m.word is Some {
        Some(Ok(Some(TokenView::Word(m.word.unwrap()))))
    } else if m.int is Some {
        match parse_radix(m.int.unwrap(), base as u32) {
            Some(v) => Some(Ok(Some(TokenView::Number(v)))),
            None => Some(Err(parse_err())),
        }
    } else if m.num is Some {
        Some(Ok(Some(TokenView::Float(m.num.unwrap()))))
    } else if m.hex is Some {
        match parse_radix(hex_digits(m.hex.unwrap()), 16) {
            Some(v) => Some(Ok(Some(TokenView::Number(v)))),
            None => Some(Err(parse_err())),
        }
    } else if m.text is Some {
        Some(Ok(Some(TokenView::StringLiteral(m.text.unwrap()))))
    } else {
        None
    }
}

/// Reads the token a match of the token pattern stands for, as
/// `match_token` says.
pub fn token_of_match(m: TokenMatch, base: i64) -> (r: Option<ForthResult<Option<Token>>>)
    requires
        2 <= (base as u32) <= 36,
    ensures
        match r {
            Some(x) => match_token(m@, base) == Some(token_result_view(x)),
            None => match_token(m@, base) is None,
        },
{
    if let Some(w) = m.word {
        return Some(Ok(Some(Token::Word(w))));
    }
    if let Some(i) = m.int {
        return Some(match from_str_radix(i.as_str(), base as u32) {
            Some(v) => Ok(Some(Token::Number(v))),
            None => Err(ForthError::new(ForthErrorKind::UnknownToken, ForthPhase::Parsing)),
        });
    }
    if let Some(f) = m.num {
        return Some(Ok(Some(Token::Float(f))));
    }
    if let Some(h) = m.hex {
        let hl = h.as_str().unicode_len();
        let digits = if hl >= 2 { h.as_str().substring_char(2, hl) } else { "" };
        proof {
            reveal_strlit("");
        }
        assert(digits@ == hex_digits(h@));
        return Some(match from_str_radix(digits, 16) {
            Some(v) => Ok(Some(Token::Number(v))),
            None => Err(ForthError::new(ForthErrorKind::UnknownToken, ForthPhase::Parsing)),
        });
    }
    if let Some(t) = m.text {
        return Some(Ok(Some(Token::StringLiteral(t))));
    }
    None
}

/// The digits of a hex literal: what follows its `0x`.
pub open spec fn hex_digits(h: Seq<char>) -> Seq<char> {
    if h.len() >= 2 {
        h.skip(2)
    } else {
        Seq::empty()
    }
}

/// The view of a tokenizer result.
pub open spec fn token_result_view(r: ForthResult<Option<Token>>) -> ForthResult<Option<TokenView>> {
    match r {
        Ok(Some(t)) => Ok(Some(t@)),
        Ok(None) => Ok(None),
        Err(e) => Err(e),
    }
}

impl Parser {
    /// The tokenizer holds the token expression, made by `Regex::new`
    /// from the token pattern.
    pub open spec fn wf(&self) -> bool {
        regex_source(self.token_re) == Some(token_pattern())
    }

    /// The input sources as bytes and offsets.
    pub open spec fn sources(&self) -> Seq<SrcView> {
        self.input_stack@.map_values(|s: InputSource| SrcView { bytes: utf8(s.text@), ptr: s.ptr as nat })
    }

    /// A tokenizer with no input, in base 10. Fails, with
    /// `ExecutionStateCorrupted` of the parsing phase, when the token
    /// pattern does not compile.
    pub fn try_new() -> (r: ForthResult<Self>)
        ensures
            r matches Ok(p) ==> p.wf() && p.input_stack@.len() == 0 && p.base == 10,
            r matches Err(e) ==> e == (ForthError { kind: ForthErrorKind::ExecutionStateCorrupted, phase: ForthPhase::Parsing }),
    {
        match regex_new(TOKEN_PATTERN) {
            Some(re) => Ok(Parser { input_stack: Vec::new(), base: 10, token_re: re }),
            None => Err(ForthError::new(ForthErrorKind::ExecutionStateCorrupted, ForthPhase::Parsing)),
        }
    }

    /// Moves the offset of the top source to `p`.
    fn move_top(&mut self, p: usize)
        requires
            old(self).input_stack@.len() > 0,
        ensures
            final(self).sources() == moved(old(self).sources(), p as nat),
            final(self).token_re == old(self).token_re,
            final(self).base == old(self).base,
            final(self).input_stack@.len() == old(self).input_stack@.len(),
    {
        let mut src = self.input_stack.pop().unwrap();
        src.ptr = p;
        self.input_stack.push(src);
        assert(self.sources() =~= moved(old(self).sources(), p as nat));
    }

    /// Reads the next token, as `lex` says.
    pub fn next_token(&mut self) -> (r: ForthResult<Option<Token>>)
        requires
            old(self).wf(),
            2 <= (old(self).base as u32) <= 36,
        ensures
            final(self).wf(),
            final(self).base == old(self).base,
            (final(self).sources(), token_result_view(r)) == lex(old(self).sources(), old(self).base),
    {
        let ghost target = lex(self.sources(), self.base);
        loop
            invariant
                self.wf(),
                self.base == old(self).base,
                2 <= (self.base as u32) <= 36,
                lex(self.sources(), self.base) == target,
                target == lex(old(self).sources(), old(self).base),
            decreases self.sources().len(), remaining(self.sources()),
        {
            let n = self.input_stack.len();
            if n == 0 {
                return Ok(None);
            }
            let ptr = self.input_stack[n - 1].ptr;
            let len = self.input_stack[n - 1].text.as_str().as_bytes().len();
            assert(self.sources().last() == (SrcView { bytes: utf8(self.input_stack@[n - 1].text@), ptr: ptr as nat }));
            assert(len == self.sources().last().bytes.len());
            if ptr >= len {
                let ghost before = self.sources();
                self.input_stack.pop();
                assert(self.sources() =~= before.drop_last());
                continue;
            }
            let ghost top = self.sources().last();
            let found = match text_from(self.input_stack[n - 1].text.as_str(), ptr) {
                None => None,
                Some(rest) => {
                    assert(rest.spec_bytes() == top.bytes.subrange(ptr as int, len as int));
                    let m = scan_token(&self.token_re, rest);
                    assert(m matches Some(mm) ==> captures_of(token_pattern(), top.bytes.subrange(ptr as int, len as int)) == Some(mm@));
                    Some(m)
                },
            };
            match found {
                None => {
                    self.move_top(ptr + 1);
                },
                Some(None) => {
                    self.move_top(ptr + 1);
                },
                Some(Some(m)) => {
                    assert(vstd::utf8::is_char_boundary(top.bytes, ptr as int));
                    assert(captures_of(token_pattern(), top.bytes.subrange(ptr as int, top.bytes.len() as int)) == Some(m@));
                    let e = match m.end {
                        Some(e) => e,
                        None => {
                            return Err(ForthError::new(ForthErrorKind::UnknownToken, ForthPhase::Parsing));
                        },
                    };
                    if let Some(r) = token_of_match(m, self.base) {
                        self.move_top(ptr + e);
                        return r;
                    }
                    if e == 0 || e > len - ptr {
                        self.move_top(ptr + 1);
                    } else {
                        self.move_top(ptr + e);
                    }
                },
            }
        }
    }
}

// ---------------------------------------------------------------------------
// Reading raw text.

/// The characters left to read in a source: what its bytes from the offset
/// on decode to.
pub open spec fn rest_chars(src: SrcView) -> Seq<char> {
    vstd::utf8::decode_utf8(src.bytes.subrange(src.ptr as int, src.bytes.len() as int))
}

/// What reading up to `delim` gives from source `src`: `s` is the text
/// before the first `delim` and the offset `p` passes that `delim` by one
/// byte; with no `delim` left, `s` is all the rest and `p` the end.
pub open spec fn read_until_result(src: SrcView, delim: char, s: Seq<char>, p: nat) -> bool {
    let rest = rest_chars(src);
    ||| (s.len() < rest.len() && s == rest.take(s.len() as int) && rest[s.len() as int] == delim
        && !s.contains(delim) && p == src.ptr + utf8(s).len() + 1)
    ||| (s == rest && !rest.contains(delim) && p == src.bytes.len())
}

/// The encoding of two texts one after the other is the two encodings
/// one after the other.
proof fn lemma_utf8_concat(a: Seq<char>, b: Seq<char>)
    ensures
        utf8(a + b) == utf8(a) + utf8(b),
    decreases a.len(),
{
    if a.len() == 0 {
        assert(a + b =~= b);
    } else {
        assert((a + b).drop_first() =~= a.drop_first() + b);
        lemma_utf8_concat(a.drop_first(), b);
    }
}

/// A character takes at least one byte.
proof fn lemma_utf8_nonempty(a: Seq<char>)
    requires
        a.len() > 0,
    ensures
        utf8(a).len() >= 1,
{
    let c = a[0] as u32;
    assert(vstd::utf8::encode_scalar(c).len() >= 1);
}

impl Parser {
    /// Reads the text of the top source up to the first `delim`, passing
    /// over that `delim` (see `read_until_result`); `None` when there is no
    /// source. The offset must stand at a character boundary.
    pub fn read_until(&mut self, delim: char) -> (r: Option<String>)
        requires
            old(self).input_stack@.len() > 0 ==> vstd::utf8::is_char_boundary(
                old(self).sources().last().bytes,
                old(self).sources().last().ptr as int,
            ),
        ensures
            final(self).wf() == old(self).wf(),
            final(self).base == old(self).base,
            match r {
                None => old(self).input_stack@.len() == 0 && final(self).sources() == old(self).sources(),
                Some(s) => old(self).input_stack@.len() > 0 && exists|p: nat|
                    read_until_result(old(self).sources().last(), delim, s@, p)
                        && #[trigger] moved(old(self).sources(), p) == final(self).sources(),
            },
    {
        let n = self.input_stack.len();
        if n == 0 {
            return None;
        }
        let start = self.input_stack[n - 1].ptr;
        let ghost src = self.sources().last();
        assert(src == (SrcView { bytes: utf8(self.input_stack@[n - 1].text@), ptr: start as nat }));
        let (piece, p) = {
            let text = self.input_stack[n - 1].text.as_str();
            assert(text.spec_bytes() == src.bytes);
            proof {
                vstd::utf8::encode_utf8_valid_utf8(text@);
                assert(start <= src.bytes.len());
            }
            let tl = text.as_bytes().len();
            let (_, rest) = text.split_at(start);
            proof {
                vstd::utf8::encode_utf8_decode_utf8(rest@);
                assert(rest@ == rest_chars(src));
            }
            let m = rest.unicode_len();
            let mut k: usize = 0;
            while k < m
                invariant
                    k <= m,
                    m == rest@.len(),
                    forall|j: int| 0 <= j < k ==> rest@[j] != delim,
                ensures
                    k <= m,
                    forall|j: int| 0 <= j < k ==> rest@[j] != delim,
                    k < m ==> rest@[k as int] == delim,
                decreases m - k,
            {
                if rest.get_char(k) == delim {
                    break;
                }
                k = k + 1;
            }
            let head = rest.substring_char(0, k);
            let s = head.to_owned();
            assert(s@ == rest@.take(k as int));
            assert(!s@.contains(delim)) by {
                if s@.contains(delim) {
                    let j = choose|j: int| 0 <= j < s@.len() && s@[j] == delim;
                    assert(rest@[j] == delim);
                }
            }
            if k < m {
                proof {
                    assert(rest@ =~= rest@.take(k as int) + rest@.skip(k as int));
                    lemma_utf8_concat(rest@.take(k as int), rest@.skip(k as int));
                    lemma_utf8_nonempty(rest@.skip(k as int));
                    assert(rest.spec_bytes().len() == src.bytes.len() - start);
                }
                let hl = head.as_bytes().len();
                assert(read_until_result(src, delim, s@, (start + hl + 1) as nat));
                (s, start + hl + 1)
            } else {
                proof {
                    assert(rest@.take(k as int) =~= rest@);
                }
                assert(read_until_result(src, delim, s@, tl as nat));
                (s, tl)
            }
        };
        assert(read_until_result(src, delim, piece@, p as nat));
        self.move_top(p);
        assert(moved(old(self).sources(), p as nat) == self.sources());
        Some(piece)
    }
}

// ---------------------------------------------------------------------------
// Numbers.

/// The value of digit `c` in base `radix`, if it is one.
pub open spec fn digit_value(c: char, radix: u32) -> Option<nat> {
    let v: int = if '0' <= c && c <= '9' {
        c as int - '0' as int
    } else if 'a' <= c && c <= 'z' {
        c as int - 'a' as int + 10
    } else if 'A' <= c && c <= 'Z' {
        c as int - 'A' as int + 10
    } else {
        radix as int
    };
    if v < radix {
        Some(v as nat)
    } else {
        None
    }
}

/// The value of the digits `s` in base `radix`, if they all are digits.
pub open spec fn digits_value(s: Seq<char>, radix: u32) -> Option<nat>
    decreases s.len(),
{
    if s.len() == 0 {
        Some(0)
    } else {
        match (digits_value(s.drop_last(), radix), digit_value(s.last(), radix)) {
            (Some(h), Some(d)) => Some(h * (radix as nat) + d),
            _ => None,
        }
    }
}

/// What `i64::from_str_radix` gives: an optional sign, then at least one
/// digit of base `radix`, the value fitting an `i64`.
pub open spec fn parse_radix(s: Seq<char>, radix: u32) -> Option<i64> {
    let neg = s.len() > 0 && s[0] == '-';
    let body = if s.len() > 0 && (s[0] == '-' || s[0] == '+') { s.skip(1) } else { s };
    if body.len() == 0 {
        None
    } else {
        match digits_value(body, radix) {
            None => None,
            Some(v) => {
                let x: int = if neg { -v } else { v as int };
                if i64::MIN <= x <= i64::MAX {
                    Some(x as i64)
                } else {
                    None
                }
            },
        }
    }
}

/// The value of digit `c` in base `radix`, if it is one.
fn digit_of(c: char, radix: u32) -> (r: Option<u32>)
    requires
        2 <= radix <= 36,
    ensures
        match digit_value(c, radix) {
            Some(v) => r == Some(v as u32),
            None => r is None,
        },
{
    let v: u32 = if '0' <= c && c <= '9' {
        (c as u32) - ('0' as u32)
    } else if 'a' <= c && c <= 'z' {
        (c as u32) - ('a' as u32) + 10
    } else if 'A' <= c && c <= 'Z' {
        (c as u32) - ('A' as u32) + 10
    } else {
        radix
    };
    if v < radix {
        Some(v)
    } else {
        None
    }
}

/// Parses `s` as `i64::from_str_radix` does (see `parse_radix`).
pub fn from_str_radix(s: &str, radix: u32) -> (r: Option<i64>)
    requires
        2 <= radix <= 36,
    ensures
        r == parse_radix(s@, radix),
{
    let n = s.unicode_len();
    if n == 0 {
        return None;
    }
    let first = s.get_char(0);
    let neg = first == '-';
    let start: usize = if first == '-' || first == '+' { 1 } else { 0 };
    let ghost body = if first == '-' || first == '+' { s@.skip(1) } else { s@ };
    assert(body =~= s@.skip(start as int));
    if start >= n {
        return None;
    }
    assert(body.take(0) =~= Seq::<char>::empty());
    // The magnitude, kept while it fits: at most 2^63.
    let mut acc: u128 = 0;
    let mut i: usize = start;
    while i < n
        invariant
            start <= i <= n,
            start < n,
            n == s@.len(),
            body == s@.skip(start as int),
            start as int == (if s@[0] == '-' || s@[0] == '+' { 1int } else { 0int }),
            neg == (s@[0] == '-'),
            2 <= radix <= 36,
            digits_value(body.take(i - start), radix) == Some(acc as nat),
            acc <= 0x8000_0000_0000_0000,
        decreases n - i,
    {
        let c = s.get_char(i);
        assert(body.take(i - start + 1).drop_last() =~= body.take(i - start));
        assert(body[i - start] == c);
        assert(body.take(i - start + 1).last() == c);
        match digit_of(c, radix) {
            None => {
                proof {
                    lemma_digits_none(body, (i - start) as nat, radix);
                    let pb = if s@.len() > 0 && (s@[0] == '-' || s@[0] == '+') { s@.skip(1) } else { s@ };
                    assert(pb =~= body);
                    assert(digits_value(body, radix) is None);
                }
                return None;
            },
            Some(d) => {
                assert(acc * (radix as u128) <= 0x8000_0000_0000_0000 * 36) by (nonlinear_arith)
                    requires
                        acc <= 0x8000_0000_0000_0000,
                        radix <= 36,
                ;
                let next = acc * (radix as u128) + (d as u128);
                assert(digits_value(body.take(i - start + 1), radix) == Some(next as nat));
                if next > 0x8000_0000_0000_0000 {
                    proof {
                        lemma_digits_grow(body, (i - start + 1) as nat, radix);
                        let pb = if s@.len() > 0 && (s@[0] == '-' || s@[0] == '+') { s@.skip(1) } else { s@ };
                        assert(pb =~= body);
                    }
                    // The rest may still hold a non-digit; either way there is no value.
                    return None;
                }
                acc = next;
            },
        }
        i = i + 1;
    }
    assert(body.take(n - start) =~= body);
    if neg {
        if acc == 0x8000_0000_0000_0000 {
            Some(i64::MIN)
        } else {
            Some(-(acc as i64))
        }
    } else if acc > 0x7FFF_FFFF_FFFF_FFFF {
        None
    } else {
        Some(acc as i64)
    }
}

/// A non-digit at position `k` spoils the value of every longer prefix.
proof fn lemma_digits_none(s: Seq<char>, k: nat, radix: u32)
    requires
        k < s.len(),
        digit_value(s[k as int], radix) is None,
    ensures
        digits_value(s, radix) is None,
    decreases s.len(),
{
    if s.len() == k + 1 {
        assert(s.last() == s[k as int]);
    } else {
        assert(s.drop_last()[k as int] == s[k as int]);
        lemma_digits_none(s.drop_last(), k, radix);
    }
}

/// Once a prefix's value passes 2^63, the whole value (if any) does too.
proof fn lemma_digits_grow(s: Seq<char>, k: nat, radix: u32)
    requires
        k <= s.len(),
        2 <= radix,
        digits_value(s.take(k as int), radix) matches Some(v) && v > 0x8000_0000_0000_0000,
    ensures
        digits_value(s, radix) matches Some(w) ==> w > 0x8000_0000_0000_0000,
    decreases s.len() - k,
{
    if k < s.len() {
        let t = s.take(k as int + 1);
        assert(t.drop_last() =~= s.take(k as int));
        let v = digits_value(s.take(k as int), radix).unwrap();
        match digits_value(t, radix) {
            Some(v2) => {
                assert(v * radix >= v) by (nonlinear_arith)
                    requires
                        radix >= 2,
                        v >= 0,
                ;
                assert(v2 >= v * radix);
                lemma_digits_grow(s, (k + 1) as nat, radix);
            },
            None => {
                lemma_prefix_none(s, (k + 1) as nat, radix);
            },
        }
    } else {
        assert(s.take(k as int) =~= s);
    }
}

/// A prefix without a value leaves the whole without one.
proof fn lemma_prefix_none(s: Seq<char>, k: nat, radix: u32)
    requires
        k <= s.len(),
        digits_value(s.take(k as int), radix) is None,
    ensures
        digits_value(s, radix) is None,
    decreases s.len() - k,
{
    if k == s.len() {
        assert(s.take(k as int) =~= s);
    } else {
        let t = s.take(k as int + 1);
        assert(t.drop_last() =~= s.take(k as int));
        lemma_prefix_none(s, (k + 1) as nat, radix);
    }
}

} // verus!
