use crate::common::types::{Op, TraceEvent};
use crate::common::error::ForthResult;
use crate::vm::memory::Memory;
use crate::vm::state::copy_vec;
use crate::optimizer::analysis::copy_ops;
use crate::optimizer::analysis::{OptimizerState, PatternContext, PatternView};
use crate::jit::runtime::{JitEngine, JitBlock, JitTarget, exec_bytes, MAX_BLOCK_OPS};
use crate::jit::emit::{block_jumps_fit, jump_fits_block, emit_spec};
use vstd::prelude::*;

verus! {

/// How a dictionary word is implemented.
#[derive(Clone, Copy, Debug, PartialEq, Eq, Structural)]
pub enum WordKind {
    /// A primitive instruction, by its code.
    Primitive(usize),
    /// A colon definition, by the address of its code.
    Defined(usize),
    Variable(usize),
    Created(usize),
}

/// A dictionary word.
#[derive(Clone, Debug)]
pub struct WordEntry {
    pub name: String,
    pub kind: WordKind,
    pub is_immediate: bool,
    pub is_hidden: bool,
}

/// The mathematical value of a `WordEntry`.
pub struct WordEntryView {
    pub name: Seq<char>,
    pub kind: WordKind,
    pub is_immediate: bool,
    pub is_hidden: bool,
}

impl View for WordEntry {
    type V = WordEntryView;

    open spec fn view(&self) -> WordEntryView {
        WordEntryView {
            name: self.name@,
            kind: self.kind,
            is_immediate: self.is_immediate,
            is_hidden: self.is_hidden,
        }
    }
}

/// The code buffer: one instruction byte and one data cell per address.
#[derive(Clone, Debug)]
pub struct CodeBuf {
    pub ops: Vec<u8>,
    pub data: Vec<u64>,
}

impl CodeBuf {
    /// An empty code buffer.
    pub fn new() -> (r: Self)
        ensures
            r.ops@.len() == 0,
            r.data@.len() == 0,
    {
        CodeBuf { ops: Vec::new(), data: Vec::new() }
    }

    /// Appends instruction `op` with data `val`.
    pub fn push(&mut self, op: Op, val: u64)
        ensures
            final(self).ops@ == old(self).ops@.push(op.code()),
            final(self).data@ == old(self).data@.push(val),
    {
        self.ops.push(op.to_u8());
        self.data.push(val);
    }

    /// Replaces the data cell at `addr`, if there is one.
    pub fn patch_data(&mut self, addr: usize, val: u64)
        ensures
            final(self).ops@ == old(self).ops@,
            final(self).data@ == if addr < old(self).data@.len() {
                old(self).data@.update(addr as int, val)
            } else {
                old(self).data@
            },
    {
        if addr < self.data.len() {
            self.data.set(addr, val);
        }
    }

    /// The number of instructions.
    pub fn len(&self) -> (r: usize)
        ensures
            r == self.ops@.len(),
    {
        self.ops.len()
    }

    /// Removes every instruction.
    pub fn clear(&mut self)
        ensures
            final(self).ops@.len() == 0,
            final(self).data@.len() == 0,
    {
        self.ops.clear();
        self.data.clear();
    }

    /// The two sequences have one cell per instruction.
    pub open spec fn wf(&self) -> bool {
        self.ops@.len() == self.data@.len()
    }
}

/// The lowercase form of a string, as `str::to_lowercase` computes it.
pub uninterp spec fn lowercase(s: Seq<char>) -> Seq<char>;

/// Calls `str::to_lowercase`: the result is the lowercase form of `s`
/// (named by `lowercase`; the Unicode case mapping is not spelled out).
#[verifier::external_body]
pub(crate) fn to_lowercase(s: &str) -> (r: String)
    ensures
        r@ == lowercase(s@),
{
    s.to_lowercase()
}

/// A named list of words, searched by lowercase name.
#[derive(Clone, Debug)]
pub struct WordList {
    pub name: String,
    /// Pairs of lowercase name and word index; a later pair for a name
    /// overrides an earlier one.
    pub words: Vec<(String, usize)>,
}

/// The mapping from names to word indices that a list of pairs holds.
pub open spec fn names_map(v: Seq<(String, usize)>) -> Map<Seq<char>, usize>
    decreases v.len(),
{
    if v.len() == 0 {
        Map::empty()
    } else {
        names_map(v.drop_last()).insert(v.last().0@, v.last().1)
    }
}

/// Where name `k` last occurs among the pairs, or -1.
pub open spec fn last_name_index(v: Seq<(String, usize)>, k: Seq<char>) -> int
    decreases v.len(),
{
    if v.len() == 0 {
        -1
    } else if v.last().0@ == k {
        v.len() - 1
    } else {
        last_name_index(v.drop_last(), k)
    }
}

proof fn lemma_names_map_index(v: Seq<(String, usize)>, k: Seq<char>)
    ensures
        -1 <= last_name_index(v, k) < v.len(),
        last_name_index(v, k) >= 0 ==> v[last_name_index(v, k)].0@ == k && names_map(v).contains_key(k)
            && names_map(v)[k] == v[last_name_index(v, k)].1,
        last_name_index(v, k) == -1 ==> !names_map(v).contains_key(k),
    decreases v.len(),
{
    if v.len() > 0 && v.last().0@ != k {
        lemma_names_map_index(v.drop_last(), k);
        let i = last_name_index(v, k);
        if i >= 0 {
            assert(v[i] == v.drop_last()[i]);
        }
    }
}

proof fn lemma_names_map_update(v: Seq<(String, usize)>, k: Seq<char>, s: String, x: usize)
    requires
        last_name_index(v, k) >= 0,
        s@ == k,
    ensures
        names_map(v.update(last_name_index(v, k), (s, x))) == names_map(v).insert(k, x),
    decreases v.len(),
{
    lemma_names_map_index(v, k);
    let i = last_name_index(v, k);
    let u = v.update(i, (s, x));
    if i == v.len() - 1 {
        assert(u.drop_last() =~= v.drop_last());
        assert(names_map(v).insert(k, x) =~= names_map(v.drop_last()).insert(k, x));
    } else {
        lemma_names_map_update(v.drop_last(), k, s, x);
        assert(u.drop_last() =~= v.drop_last().update(i, (s, x)));
        assert(names_map(u) =~= names_map(v).insert(k, x));
    }
}

impl WordList {
    /// The word index that the list holds for a lowercase name.
    pub open spec fn map(&self) -> Map<Seq<char>, usize> {
        names_map(self.words@)
    }

    /// Binds `key` (a lowercase name) to word `idx`.
    fn bind(&mut self, key: String, idx: usize)
        ensures
            final(self).map() == old(self).map().insert(key@, idx),
            final(self).name@ == old(self).name@,
    {
        let ghost k = key@;
        proof {
            lemma_names_map_index(self.words@, k);
        }
        match self.position(&key) {
            Some(i) => {
                proof {
                    lemma_names_map_update(self.words@, k, key, idx);
                }
                self.words.set(i, (key, idx));
            },
            None => {
                self.words.push((key, idx));
                assert(self.words@.drop_last() =~= old(self).words@);
            },
        }
    }

    /// Where `key` last occurs.
    fn position(&self, key: &String) -> (r: Option<usize>)
        ensures
            match r {
                Some(i) => i == last_name_index(self.words@, key@),
                None => last_name_index(self.words@, key@) == -1,
            },
    {
        let mut i = self.words.len();
        assert(self.words@.take(i as int) =~= self.words@);
        while i > 0
            invariant
                i <= self.words@.len(),
                last_name_index(self.words@, key@) == last_name_index(self.words@.take(i as int), key@),
            decreases i,
        {
            assert(self.words@.take(i as int).drop_last() =~= self.words@.take(i - 1));
            assert(self.words@.take(i as int).last() == self.words@[i - 1]);
            if self.words[i - 1].0 == *key {
                return Some(i - 1);
            }
            i = i - 1;
        }
        None
    }

    /// The word index bound to `key` (a lowercase name), if any.
    fn get(&self, key: &String) -> (r: Option<usize>)
        ensures
            r == (if self.map().contains_key(key@) {
                Some(self.map()[key@])
            } else {
                None::<usize>
            }),
    {
        proof {
            lemma_names_map_index(self.words@, key@);
        }
        match self.position(key) {
            Some(i) => Some(self.words[i].1),
            None => None,
        }
    }
}

/// The dictionary: all words, and the word lists that name them.
#[derive(Clone, Debug)]
pub struct Dictionary {
    pub entries: Vec<WordEntry>,
    pub wordlists: Vec<WordList>,
    pub search_order: Vec<usize>,
    pub current: usize,
    pub latest_word: Option<usize>,
}

/// Whether word `idx` exists and is hidden (being defined).
pub open spec fn hidden_at(entries: Seq<WordEntry>, idx: usize) -> bool {
    idx < entries.len() && entries[idx as int].is_hidden
}

/// The word that a lowercase name finds: the word lists are searched from
/// the last one in the search order to the first; a list whose word for
/// the name is hidden is passed over.
pub open spec fn search(lists: Seq<WordList>, entries: Seq<WordEntry>, order: Seq<usize>, key: Seq<char>) -> Option<usize>
    decreases order.len(),
{
    if order.len() == 0 {
        None
    } else if lists[order.last() as int].map().contains_key(key)
        && !hidden_at(entries, lists[order.last() as int].map()[key]) {
        Some(lists[order.last() as int].map()[key])
    } else {
        search(lists, entries, order.drop_last(), key)
    }
}

/// `d1` is `d0` with lowercase `name` bound to word `r` in the current
/// list, the lists and the search order otherwise as they were.
pub open spec fn bound_in_current(d0: Dictionary, d1: Dictionary, name: Seq<char>, r: usize) -> bool {
    &&& d1.wordlists@.len() == d0.wordlists@.len()
    &&& d1.wordlists@[d0.current as int].map() == d0.wordlists@[d0.current as int].map().insert(lowercase(name), r)
    &&& forall|i: int| 0 <= i < d0.wordlists@.len() && i != d0.current ==> #[trigger] d1.wordlists@[i] == d0.wordlists@[i]
    &&& d1.search_order@ == d0.search_order@
    &&& d1.current == d0.current
    &&& r == d0.entries@.len()
    &&& d1.entries@.len() == d0.entries@.len() + 1
    &&& forall|i: int| 0 <= i < d0.entries@.len() ==> #[trigger] d1.entries@[i] == d0.entries@[i]
    &&& !d1.entries@[r as int].is_hidden
}

/// A word just added is what its name finds, in any letter case, when the
/// list it was added to is the one searched first.
pub proof fn lemma_insert_then_lookup(d0: Dictionary, d1: Dictionary, name: Seq<char>, r: usize)
    requires
        d0.wf(),
        bound_in_current(d0, d1, name, r),
        d0.search_order@.len() > 0,
        d0.search_order@.last() == d0.current,
    ensures
        search(d1.wordlists@, d1.entries@, d1.search_order@, lowercase(name)) == Some(r),
{
}

/// Adding a word leaves what every other name finds as it was, when the
/// list it was added to is searched first.
pub proof fn lemma_insert_keeps_others(d0: Dictionary, d1: Dictionary, name: Seq<char>, r: usize, other: Seq<char>)
    requires
        d0.wf(),
        crate::compiler::interpret::dict_consistent(d0),
        bound_in_current(d0, d1, name, r),
        d0.search_order@.len() > 0,
        d0.search_order@.last() == d0.current,
        other != lowercase(name),
    ensures
        search(d1.wordlists@, d1.entries@, d1.search_order@, other) == search(d0.wordlists@, d0.entries@, d0.search_order@, other),
{
    lemma_search_unchanged(d0, d1, name, r, d0.search_order@, other);
}

/// Searching an order for a key other than the one bound finds the same
/// word before and after the binding.
proof fn lemma_search_unchanged(d0: Dictionary, d1: Dictionary, name: Seq<char>, r: usize, order: Seq<usize>, other: Seq<char>)
    requires
        d0.wf(),
        crate::compiler::interpret::dict_consistent(d0),
        bound_in_current(d0, d1, name, r),
        forall|i: int| 0 <= i < order.len() ==> #[trigger] order[i] < d0.wordlists@.len(),
        other != lowercase(name),
    ensures
        search(d1.wordlists@, d1.entries@, order, other) == search(d0.wordlists@, d0.entries@, order, other),
    decreases order.len(),
{
    if order.len() > 0 {
        let l = order.last() as int;
        assert(order[order.len() - 1] < d0.wordlists@.len());
        if l == d0.current {
            assert(d1.wordlists@[l].map().contains_key(other) == d0.wordlists@[l].map().contains_key(other));
        } else {
            assert(d1.wordlists@[l] == d0.wordlists@[l]);
        }
        if d0.wordlists@[l].map().contains_key(other) {
            let idx = d0.wordlists@[l].map()[other];
            assert(idx < d0.entries@.len());
            assert(d1.entries@[idx as int] == d0.entries@[idx as int]);
        }
        assert forall|i: int| 0 <= i < order.drop_last().len() implies #[trigger] order.drop_last()[i] < d0.wordlists@.len() by {
            assert(order.drop_last()[i] == order[i]);
        }
        lemma_search_unchanged(d0, d1, name, r, order.drop_last(), other);
    }
}

impl Dictionary {
    /// The current list and every list in the search order exist.
    pub open spec fn wf(&self) -> bool {
        &&& self.current < self.wordlists@.len()
        &&& forall|i: int| 0 <= i < self.search_order@.len() ==> #[trigger] self.search_order@[i] < self.wordlists@.len()
    }

    /// An empty dictionary with one empty word list, "forth", which is both
    /// the current list and the whole search order.
    pub fn new() -> (r: Self)
        ensures
            r.wf(),
            r.entries@.len() == 0,
            r.wordlists@.len() == 1,
            r.wordlists@[0].name@ == "forth"@,
            r.wordlists@[0].map() == Map::<Seq<char>, usize>::empty(),
            r.search_order@ == seq![0usize],
            r.current == 0,
            r.latest_word is None,
    {
        let forth = WordList { name: "forth".to_owned(), words: Vec::new() };
        let r = Dictionary {
            entries: Vec::new(),
            wordlists: vec![forth],
            search_order: vec![0],
            current: 0,
            latest_word: None,
        };
        assert(r.wordlists@[0].words@ =~= Seq::<(String, usize)>::empty());
        assert(r.wordlists@[0].map() =~= Map::<Seq<char>, usize>::empty());
        r
    }

    /// Adds a new word, visible in the current list under its lowercase
    /// name, and makes it the latest word. Returns its index.
    pub fn insert(&mut self, name: String, kind: WordKind) -> (r: usize)
        requires
            old(self).wf(),
        ensures
            final(self).wf(),
            bound_in_current(*old(self), *final(self), name@, r),
            r == old(self).entries@.len(),
            final(self).entries@.len() == old(self).entries@.len() + 1,
            forall|i: int| 0 <= i < old(self).entries@.len() ==> #[trigger] final(self).entries@[i] == old(self).entries@[i],
            final(self).entries@[r as int]@ == (WordEntryView { name: name@, kind, is_immediate: false, is_hidden: false }),
            final(self).wordlists@.len() == old(self).wordlists@.len(),
            final(self).wordlists@[old(self).current as int].map() == old(self).wordlists@[old(self).current as int].map().insert(lowercase(name@), r),
            final(self).wordlists@[old(self).current as int].name@ == old(self).wordlists@[old(self).current as int].name@,
            forall|i: int| 0 <= i < old(self).wordlists@.len() && i != old(self).current ==> #[trigger] final(self).wordlists@[i] == old(self).wordlists@[i],
            final(self).search_order@ == old(self).search_order@,
            final(self).current == old(self).current,
            final(self).latest_word == Some(r),
    {
        let idx = self.entries.len();
        let key = to_lowercase(name.as_str());
        self.entries.push(WordEntry { name: name.clone(), kind, is_immediate: false, is_hidden: false });
        let cur = self.current;
        let mut wl = self.wordlists.remove(cur);
        wl.bind(key, idx);
        self.wordlists.insert(cur, wl);
        assert forall|i: int| 0 <= i < old(self).wordlists@.len() && i != cur implies #[trigger] self.wordlists@[i] == old(self).wordlists@[i] by {
            if i < cur {
                assert(self.wordlists@[i] == old(self).wordlists@.remove(cur as int)[i]);
            } else {
                assert(self.wordlists@[i] == old(self).wordlists@.remove(cur as int)[i - 1]);
            }
        }
        self.latest_word = Some(idx);
        idx
    }

    /// Marks word `idx` immediate, if it exists.
    pub fn set_immediate(&mut self, idx: usize)
        ensures
            final(self).entries@.len() == old(self).entries@.len(),
            forall|i: int| 0 <= i < old(self).entries@.len() && i != idx ==> #[trigger] final(self).entries@[i] == old(self).entries@[i],
            idx < old(self).entries@.len() ==> final(self).entries@[idx as int]@ == (WordEntryView { is_immediate: true, ..old(self).entries@[idx as int]@ }),
            final(self).wordlists@ == old(self).wordlists@,
            final(self).search_order@ == old(self).search_order@,
            final(self).current == old(self).current,
            final(self).latest_word == old(self).latest_word,
    {
        if idx < self.entries.len() {
            let e = WordEntry {
                name: self.entries[idx].name.clone(),
                kind: self.entries[idx].kind,
                is_immediate: true,
                is_hidden: self.entries[idx].is_hidden,
            };
            self.entries.set(idx, e);
        }
    }

    /// Sets whether word `idx` is hidden, if it exists.
    pub fn set_hidden(&mut self, idx: usize, hidden: bool)
        ensures
            final(self).entries@.len() == old(self).entries@.len(),
            forall|i: int| 0 <= i < old(self).entries@.len() && i != idx ==> #[trigger] final(self).entries@[i] == old(self).entries@[i],
            idx < old(self).entries@.len() ==> final(self).entries@[idx as int]@ == (WordEntryView { is_hidden: hidden, ..old(self).entries@[idx as int]@ }),
            final(self).wordlists@ == old(self).wordlists@,
            final(self).search_order@ == old(self).search_order@,
            final(self).current == old(self).current,
            final(self).latest_word == old(self).latest_word,
    {
        if idx < self.entries.len() {
            let e = WordEntry {
                name: self.entries[idx].name.clone(),
                kind: self.entries[idx].kind,
                is_immediate: self.entries[idx].is_immediate,
                is_hidden: hidden,
            };
            self.entries.set(idx, e);
        }
    }

    /// The word that `name` finds, case-insensitively, through the search
    /// order; a word hidden while it is being defined is not found.
    pub fn lookup(&self, name: &str) -> (r: Option<usize>)
        requires
            self.wf(),
        ensures
            r == search(self.wordlists@, self.entries@, self.search_order@, lowercase(name@)),
    {
        let key = to_lowercase(name);
        let mut k = self.search_order.len();
        let ghost order = self.search_order@;
        assert(order.take(k as int) =~= order);
        while k > 0
            invariant
                k <= order.len(),
                order == self.search_order@,
                key@ == lowercase(name@),
                self.wf(),
                search(self.wordlists@, self.entries@, order, key@) == search(self.wordlists@, self.entries@, order.take(k as int), key@),
            decreases k,
        {
            assert(order.take(k as int).drop_last() =~= order.take(k - 1));
            assert(order.take(k as int).last() == order[k - 1]);
            let wl_idx = self.search_order[k - 1];
            let found = self.wordlists[wl_idx].get(&key);
            assert(search(self.wordlists@, self.entries@, order.take(k as int), key@) == if self.wordlists@[wl_idx as int].map().contains_key(key@)
                && !hidden_at(self.entries@, self.wordlists@[wl_idx as int].map()[key@]) {
                Some(self.wordlists@[wl_idx as int].map()[key@])
            } else {
                search(self.wordlists@, self.entries@, order.take(k - 1), key@)
            });
            if let Some(idx) = found {
                let hidden = idx < self.entries.len() && self.entries[idx].is_hidden;
                if !hidden {
                    return Some(idx);
                }
            }
            k = k - 1;
        }
        None
    }

    /// Word `idx`.
    pub fn word(&self, idx: usize) -> (r: &WordEntry)
        requires
            idx < self.entries@.len(),
        ensures
            *r == self.entries@[idx as int],
    {
        &self.entries[idx]
    }
}

impl WordEntry {
    /// An independent copy.
    pub fn duplicate(&self) -> (r: WordEntry)
        ensures
            r@ == self@,
    {
        WordEntry { name: self.name.clone(), kind: self.kind, is_immediate: self.is_immediate, is_hidden: self.is_hidden }
    }
}

impl WordList {
    /// An independent copy.
    pub fn duplicate(&self) -> (r: WordList)
        ensures
            r.name@ == self.name@,
            r.words@.len() == self.words@.len(),
            forall|i: int| 0 <= i < self.words@.len() ==> #[trigger] r.words@[i].0@ == self.words@[i].0@ && r.words@[i].1 == self.words@[i].1,
            r.map() == self.map(),
    {
        let mut words: Vec<(String, usize)> = Vec::new();
        let mut i: usize = 0;
        while i < self.words.len()
            invariant
                i <= self.words@.len(),
                words@.len() == i,
                forall|k: int| 0 <= k < i ==> #[trigger] words@[k].0@ == self.words@[k].0@ && words@[k].1 == self.words@[k].1,
                names_map(words@) == names_map(self.words@.take(i as int)),
            decreases self.words@.len() - i,
        {
            let w = (self.words[i].0.clone(), self.words[i].1);
            let ghost before = words@;
            words.push(w);
            assert(words@.drop_last() =~= before);
            assert(self.words@.take(i + 1).drop_last() =~= self.words@.take(i as int));
            i = i + 1;
        }
        assert(self.words@.take(i as int) =~= self.words@);
        WordList { name: self.name.clone(), words }
    }
}

impl Dictionary {
    /// An independent copy.
    pub fn duplicate(&self) -> (r: Dictionary)
        ensures
            r.entries@.len() == self.entries@.len(),
            forall|i: int| 0 <= i < self.entries@.len() ==> #[trigger] r.entries@[i]@ == self.entries@[i]@,
            r.wordlists@.len() == self.wordlists@.len(),
            forall|i: int| 0 <= i < self.wordlists@.len() ==> #[trigger] r.wordlists@[i].map() == self.wordlists@[i].map()
                && r.wordlists@[i].name@ == self.wordlists@[i].name@,
            r.search_order@ == self.search_order@,
            r.current == self.current,
            r.latest_word == self.latest_word,
    {
        let mut entries: Vec<WordEntry> = Vec::new();
        let mut i: usize = 0;
        while i < self.entries.len()
            invariant
                i <= self.entries@.len(),
                entries@.len() == i,
                forall|k: int| 0 <= k < i ==> #[trigger] entries@[k]@ == self.entries@[k]@,
            decreases self.entries@.len() - i,
        {
            entries.push(self.entries[i].duplicate());
            i = i + 1;
        }
        let mut wordlists: Vec<WordList> = Vec::new();
        let mut j: usize = 0;
        while j < self.wordlists.len()
            invariant
                j <= self.wordlists@.len(),
                wordlists@.len() == j,
                forall|k: int| 0 <= k < j ==> #[trigger] wordlists@[k].map() == self.wordlists@[k].map()
                    && wordlists@[k].name@ == self.wordlists@[k].name@,
            decreases self.wordlists@.len() - j,
        {
            wordlists.push(self.wordlists[j].duplicate());
            j = j + 1;
        }
        Dictionary {
            entries,
            wordlists,
            search_order: copy_vec(&self.search_order),
            current: self.current,
            latest_word: self.latest_word,
        }
    }
}

/// Text that executed code asks to print.
#[derive(Clone, Copy, Debug, PartialEq, Eq, Structural)]
pub enum Output {
    /// A number followed by a space.
    Number(i64),
    /// The character whose code is this byte.
    Char(u8),
    /// A line break.
    Newline,
}

/// The whole system a machine runs in: dictionary, memory, code, optimizer
/// and compiled super-instructions.
pub struct System {
    pub compiling: bool,
    pub dict: Dictionary,
    pub memory: Memory,
    pub code: CodeBuf,
    pub tr_code: CodeBuf,
    pub next_file_id: i64,
    /// The compilation and optimization engine's learned state.
    pub optimizer: OptimizerState,
    /// The current execution trace for the optimizer.
    pub runtime_trace: Vec<TraceEvent>,
    pub jit: JitEngine,
    pub base: i64,
    pub trace_enabled: bool,
    pub paranoid_mode: bool,
    pub jit_hits: u64,
    pub jit_poisoned: u64,
    pub jit_rollbacks: u64,
    pub virtual_time: u64,
    pub seed: u64,
    /// Compilation control stack for resolving jump targets (IF/ELSE/THEN).
    pub control_stack: Vec<usize>,
    /// Printed text not yet written out, oldest first.
    pub output: Vec<Output>,
}

impl System {
    /// A system with `mem_size` bytes of memory and nothing else: an empty
    /// dictionary, no code, a fresh optimizer, base 10. Fails as
    /// `Memory::try_new` does.
    pub fn new(mem_size: usize) -> (r: ForthResult<Self>)
        ensures
            r matches Ok(s) ==> {
                &&& !s.compiling
                &&& s.dict.wf()
                &&& s.dict.entries@.len() == 0
                &&& s.memory.bytes().len() == mem_size
                &&& s.memory.here == 0
                &&& s.code.ops@.len() == 0 && s.code.data@.len() == 0
                &&& s.tr_code.ops@.len() == 0 && s.tr_code.data@.len() == 0
                &&& s.next_file_id == 1
                &&& s.runtime_trace@.len() == 0
                &&& s.jit.blocks@ == Map::<usize, crate::jit::runtime::JitBlock>::empty()
                &&& s.base == 10
                &&& !s.trace_enabled && !s.paranoid_mode
                &&& s.jit_hits == 0 && s.jit_poisoned == 0 && s.jit_rollbacks == 0
                &&& s.virtual_time == 0
                &&& s.seed == 0xDEADBEEF
                &&& s.control_stack@.len() == 0
                &&& s.output@.len() == 0
                &&& s.optimizer.context_patterns@.len() == 0 && s.optimizer.pending_jit@.len() == 0
                &&& s.optimizer.next_opt_threshold == 100 && s.optimizer.score_threshold == 100
                &&& !s.optimizer.is_frozen
            },
            r matches Err(e) ==> e == (crate::common::error::ForthError { kind: crate::common::error::ForthErrorKind::ExecutionStateCorrupted, phase: crate::common::error::ForthPhase::Execution }),
    {
        let memory = Memory::try_new(mem_size)?;
        Ok(System {
            compiling: false,
            dict: Dictionary::new(),
            memory,
            code: CodeBuf::new(),
            tr_code: CodeBuf::new(),
            next_file_id: 1,
            optimizer: OptimizerState::new(),
            runtime_trace: Vec::new(),
            jit: JitEngine::new(),
            base: 10,
            trace_enabled: false,
            paranoid_mode: false,
            jit_hits: 0,
            jit_poisoned: 0,
            jit_rollbacks: 0,
            virtual_time: 0,
            seed: 0xDEADBEEF,
            control_stack: Vec::new(),
            output: Vec::new(),
        })
    }

    /// A copy for differential audits: the same dictionary, memory, code
    /// and settings, with a fresh optimizer, no compiled blocks, no trace,
    /// no pending output, tracing and paranoid mode off and zeroed counters.
    pub fn try_clone_isolated(&self) -> (r: ForthResult<Self>)
        ensures
            r matches Ok(s) ==> {
                &&& s.compiling == self.compiling
                &&& s.dict.entries@.len() == self.dict.entries@.len()
                &&& forall|i: int| 0 <= i < self.dict.entries@.len() ==> #[trigger] s.dict.entries@[i]@ == self.dict.entries@[i]@
                &&& s.dict.wordlists@.len() == self.dict.wordlists@.len()
                &&& forall|i: int| 0 <= i < self.dict.wordlists@.len() ==> #[trigger] s.dict.wordlists@[i].map() == self.dict.wordlists@[i].map()
                &&& s.dict.search_order@ == self.dict.search_order@
                &&& s.dict.current == self.dict.current
                &&& s.dict.latest_word == self.dict.latest_word
                &&& s.memory.bytes() == self.memory.bytes() && s.memory.here == self.memory.here
                &&& s.code.ops@ == self.code.ops@ && s.code.data@ == self.code.data@
                &&& s.tr_code.ops@ == self.tr_code.ops@ && s.tr_code.data@ == self.tr_code.data@
                &&& s.next_file_id == self.next_file_id
                &&& s.optimizer.context_patterns@.len() == 0 && s.optimizer.pending_jit@.len() == 0
                &&& s.optimizer.super_instructions@.len() == 0 && !s.optimizer.is_frozen
                &&& s.runtime_trace@.len() == 0
                &&& s.jit.blocks@ == Map::<usize, crate::jit::runtime::JitBlock>::empty()
                &&& s.base == self.base
                &&& !s.trace_enabled && !s.paranoid_mode
                &&& s.jit_hits == 0 && s.jit_poisoned == 0 && s.jit_rollbacks == 0
                &&& s.virtual_time == self.virtual_time
                &&& s.seed == self.seed
                &&& s.control_stack@.len() == 0
                &&& s.output@.len() == 0
            },
            r matches Err(e) ==> e == (crate::common::error::ForthError { kind: crate::common::error::ForthErrorKind::ExecutionStateCorrupted, phase: crate::common::error::ForthPhase::Execution }),
    {
        let memory = self.memory.try_clone()?;
        Ok(System {
            compiling: self.compiling,
            dict: self.dict.duplicate(),
            memory,
            code: CodeBuf { ops: copy_vec(&self.code.ops), data: copy_vec(&self.code.data) },
            tr_code: CodeBuf { ops: copy_vec(&self.tr_code.ops), data: copy_vec(&self.tr_code.data) },
            next_file_id: self.next_file_id,
            optimizer: OptimizerState::new(),
            runtime_trace: Vec::new(),
            jit: JitEngine::new(),
            base: self.base,
            trace_enabled: false,
            paranoid_mode: false,
            jit_hits: 0,
            jit_poisoned: 0,
            jit_rollbacks: 0,
            virtual_time: self.virtual_time,
            seed: self.seed,
            control_stack: Vec::new(),
            output: Vec::new(),
        })
    }
}

/// The primitive words the system starts with: name and instruction.
pub open spec fn core_words() -> Seq<(Seq<char>, Op)> {
    seq![
        ("dup"@, Op::Dup),
        ("drop"@, Op::Drop),
        ("swap"@, Op::Swap),
        ("over"@, Op::Over),
        ("rot"@, Op::Rot),
        ("nip"@, Op::Nip),
        ("tuck"@, Op::Tuck),
        ("2drop"@, Op::Drop2),
        ("2dup"@, Op::Dup2),
        ("+"@, Op::Add),
        ("-"@, Op::Sub),
        ("*"@, Op::Mul),
        ("/"@, Op::Div),
        ("mod"@, Op::Mod),
        ("/mod"@, Op::DivMod),
        ("1+"@, Op::Inc),
        ("1-"@, Op::Dec),
        ("sq"@, Op::Square),
        ("0="@, Op::IsZero),
        ("depth"@, Op::Depth),
        ("@"@, Op::Fetch),
        ("!"@, Op::Store),
        ("c@"@, Op::FetchC),
        ("c!"@, Op::StoreC),
        ("="@, Op::Eq),
        ("<"@, Op::Lt),
        (">"@, Op::Gt),
        ("execute"@, Op::Execute),
        ("pick"@, Op::Pick),
        ("roll"@, Op::Roll),
        ("max"@, Op::Max),
        ("min"@, Op::Min),
        ("abs"@, Op::Abs),
        ("negate"@, Op::Negate),
        ("and"@, Op::And),
        ("or"@, Op::Or),
        ("xor"@, Op::Xor),
        ("invert"@, Op::Invert),
        ("lshift"@, Op::LShift),
        ("rshift"@, Op::RShift),
        ("here"@, Op::Here),
        ("allot"@, Op::Allot),
        (","@, Op::Comma),
        ("compile,"@, Op::CompileComma),
        ("i"@, Op::I),
        ("j"@, Op::J),
        ("bl"@, Op::BL),
        ("."@, Op::Dot),
        ("emit"@, Op::Emit),
        ("cr"@, Op::Cr),
        ("yield"@, Op::Yield),
        ("catch"@, Op::Catch),
        ("throw"@, Op::Throw),
        ("stop"@, Op::Stop)
    ]
}

/// Binding the words `ws` (named in lowercase, numbered from `first`) in a map.
pub open spec fn bind_words(m: Map<Seq<char>, usize>, ws: Seq<(Seq<char>, Op)>, first: int) -> Map<Seq<char>, usize>
    decreases ws.len(),
{
    if ws.len() == 0 {
        m
    } else {
        bind_words(m, ws.drop_last(), first).insert(lowercase(ws.last().0), (first + ws.len() - 1) as usize)
    }
}

/// Block `b` is pattern `p` compiled at address `k` for `target` at time
/// `now`: its machine code is what `emit_spec` gives for the pattern's
/// instructions, and it carries the pattern, its contract and length, not
/// poisoned.
pub open spec fn compiled_block(b: JitBlock, k: usize, p: PatternView, target: JitTarget, now: u64) -> bool {
    &&& target.x86_64
    &&& p.contract matches Some(c) && b.contract@ == c
    &&& b.original_ops_len == p.original_ops.len()
    &&& b.context matches Some(q) && q@ == p
    &&& emit_spec(k, p.ops, target.windows, (k + p.original_ops.len()) as u64) matches Ok(code)
        && exec_bytes(b.code).take(code.len() as int) == code
    &&& !b.is_poisoned
    &&& b.poison_reason is None
    &&& b.poison_count == 0
    &&& b.last_retry == now
}

/// Whether entry `e` passes every check the library makes before handing
/// its code to the operating system: a pattern with a contract for an
/// x86_64 target, addresses that fit, jump targets that fit, no more than
/// `MAX_BLOCK_OPS` instructions, and code that `emit_spec` can produce.
pub open spec fn compilable(e: (usize, PatternView), target: JitTarget) -> bool {
    let (k, p) = e;
    &&& target.x86_64
    &&& p.contract is Some
    &&& k + p.ops.len() <= usize::MAX
    &&& k + p.original_ops.len() <= usize::MAX
    &&& block_jumps_fit(p.ops)
    &&& p.ops.len() <= MAX_BLOCK_OPS
    &&& emit_spec(k, p.ops, target.windows, (k + p.original_ops.len()) as u64) is Ok
}

/// The last of the first `n` entries of `queue` that is for address `k`,
/// passes the library's checks and was not refused an executable mapping
/// (`failed` holds those refused); -1 if there is none.
pub open spec fn winner(
    queue: Seq<(usize, PatternContext)>,
    n: int,
    k: usize,
    failed: Set<int>,
    target: JitTarget,
) -> int
    decreases n,
{
    if n <= 0 {
        -1
    } else if queue[n - 1].0 == k && compilable((queue[n - 1].0, queue[n - 1].1@), target) && !failed.contains(n - 1) {
        n - 1
    } else {
        winner(queue, n - 1, k, failed, target)
    }
}

/// The blocks after compiling the first `n` entries of `queue` in order,
/// given which of them the operating system refused a mapping: at each
/// address, the last entry that compiled wins; an address no entry
/// compiled for keeps its block (or its lack of one).
pub open spec fn synced(
    before: Map<usize, JitBlock>,
    after: Map<usize, JitBlock>,
    queue: Seq<(usize, PatternContext)>,
    n: int,
    failed: Set<int>,
    target: JitTarget,
    now: u64,
) -> bool {
    forall|k: usize| {
        let w = #[trigger] winner(queue, n, k, failed, target);
        if w >= 0 {
            after.contains_key(k) && compiled_block(after[k], k, queue[w].1@, target, now)
        } else {
            after.contains_key(k) == before.contains_key(k) && (before.contains_key(k) ==> after[k] == before[k])
        }
    }
}

/// Where `winner` stops: growing the prefix by one entry changes the
/// winner only at that entry's address.
proof fn lemma_winner_step(queue: Seq<(usize, PatternContext)>, i: int, k: usize, failed: Set<int>, target: JitTarget)
    requires
        0 <= i < queue.len(),
    ensures
        k != queue[i].0 ==> winner(queue, i + 1, k, failed, target) == winner(queue, i, k, failed, target),
{
}

/// Marks no indices at or above `i`.
proof fn lemma_winner_failed(queue: Seq<(usize, PatternContext)>, n: int, k: usize, failed: Set<int>, i: int, target: JitTarget)
    requires
        n <= i,
    ensures
        winner(queue, n, k, failed, target) == winner(queue, n, k, failed.insert(i), target),
    decreases n,
{
    if n > 0 {
        lemma_winner_failed(queue, n - 1, k, failed, i, target);
    }
}

/// Whether every jump of `ops` has a target index that fits an `i64`.
fn jumps_fit(ops: &Vec<(Op, u64)>) -> (r: bool)
    ensures
        r == block_jumps_fit(ops@),
{
    let mut i: usize = 0;
    while i < ops.len()
        invariant
            i <= ops@.len(),
            forall|k: int| 0 <= k < i && (ops@[k].0 == Op::Jump || ops@[k].0 == Op::JZ) ==> #[trigger] jump_fits_block(k as usize, ops@[k].1),
        decreases ops.len() - i,
    {
        let (op, data) = ops[i];
        if let Op::Jump | Op::JZ = op {
            if (i as i128) + 1 + (data as i64 as i128) > i64::MAX as i128 {
                assert(!jump_fits_block(i as int as usize, ops@[i as int].1));
                return false;
            }
        }
        i = i + 1;
    }
    true
}

impl System {
    /// Adds the primitive words to the dictionary, in order, each bound in
    /// the current word list under its lowercase name.
    pub fn register_core(&mut self)
        requires
            old(self).dict.wf(),
            old(self).dict.entries@.len() + 54 <= usize::MAX,
        ensures
            final(self).dict.wf(),
            final(self).dict.entries@.len() == old(self).dict.entries@.len() + 54,
            forall|i: int| 0 <= i < old(self).dict.entries@.len() ==> #[trigger] final(self).dict.entries@[i] == old(self).dict.entries@[i],
            forall|k: int| 0 <= k < 54 ==> #[trigger] final(self).dict.entries@[old(self).dict.entries@.len() + k]@ == (WordEntryView {
                name: core_words()[k].0,
                kind: WordKind::Primitive(core_words()[k].1.code() as usize),
                is_immediate: false,
                is_hidden: false,
            }),
            final(self).dict.wordlists@.len() == old(self).dict.wordlists@.len(),
            final(self).dict.wordlists@[old(self).dict.current as int].map() == bind_words(
                old(self).dict.wordlists@[old(self).dict.current as int].map(),
                core_words(),
                old(self).dict.entries@.len() as int,
            ),
            forall|i: int| 0 <= i < old(self).dict.wordlists@.len() && i != old(self).dict.current ==> #[trigger] final(self).dict.wordlists@[i] == old(self).dict.wordlists@[i],
            final(self).dict.current == old(self).dict.current,
            final(self).dict.search_order@ == old(self).dict.search_order@,
    {
        let ops: Vec<(&str, Op)> = vec![
            ("dup", Op::Dup),
            ("drop", Op::Drop),
            ("swap", Op::Swap),
            ("over", Op::Over),
            ("rot", Op::Rot),
            ("nip", Op::Nip),
            ("tuck", Op::Tuck),
            ("2drop", Op::Drop2),
            ("2dup", Op::Dup2),
            ("+", Op::Add),
            ("-", Op::Sub),
            ("*", Op::Mul),
            ("/", Op::Div),
            ("mod", Op::Mod),
            ("/mod", Op::DivMod),
            ("1+", Op::Inc),
            ("1-", Op::Dec),
            ("sq", Op::Square),
            ("0=", Op::IsZero),
            ("depth", Op::Depth),
            ("@", Op::Fetch),
            ("!", Op::Store),
            ("c@", Op::FetchC),
            ("c!", Op::StoreC),
            ("=", Op::Eq),
            ("<", Op::Lt),
            (">", Op::Gt),
            ("execute", Op::Execute),
            ("pick", Op::Pick),
            ("roll", Op::Roll),
            ("max", Op::Max),
            ("min", Op::Min),
            ("abs", Op::Abs),
            ("negate", Op::Negate),
            ("and", Op::And),
            ("or", Op::Or),
            ("xor", Op::Xor),
            ("invert", Op::Invert),
            ("lshift", Op::LShift),
            ("rshift", Op::RShift),
            ("here", Op::Here),
            ("allot", Op::Allot),
            (",", Op::Comma),
            ("compile,", Op::CompileComma),
            ("i", Op::I),
            ("j", Op::J),
            ("bl", Op::BL),
            (".", Op::Dot),
            ("emit", Op::Emit),
            ("cr", Op::Cr),
            ("yield", Op::Yield),
            ("catch", Op::Catch),
            ("throw", Op::Throw),
            ("stop", Op::Stop)
        ];
        assert(ops@.len() == 54);
        let ghost words = core_words();
        assert forall|k: int| 0 <= k < 54 implies #[trigger] ops@[k].0@ == words[k].0 && ops@[k].1 == words[k].1 by {}
        let ghost d0 = self.dict;
        let cur = self.dict.current;
        let mut i: usize = 0;
        assert(words.take(0) =~= Seq::<(Seq<char>, Op)>::empty());
        while i < ops.len()
            invariant
                ops@.len() == 54,
                words == core_words(),
                forall|k: int| 0 <= k < 54 ==> #[trigger] ops@[k].0@ == words[k].0 && ops@[k].1 == words[k].1,
                i <= 54,
                cur == d0.current,
                self.dict.wf(),
                self.dict.current == d0.current,
                self.dict.search_order@ == d0.search_order@,
                self.dict.entries@.len() == d0.entries@.len() + i,
                d0.entries@.len() + 54 <= usize::MAX,
                forall|j: int| 0 <= j < d0.entries@.len() ==> #[trigger] self.dict.entries@[j] == d0.entries@[j],
                forall|k: int| 0 <= k < i ==> #[trigger] self.dict.entries@[d0.entries@.len() + k]@ == (WordEntryView {
                    name: words[k].0,
                    kind: WordKind::Primitive(words[k].1.code() as usize),
                    is_immediate: false,
                    is_hidden: false,
                }),
                self.dict.wordlists@.len() == d0.wordlists@.len(),
                self.dict.wordlists@[cur as int].map() == bind_words(d0.wordlists@[cur as int].map(), words.take(i as int), d0.entries@.len() as int),
                forall|j: int| 0 <= j < d0.wordlists@.len() && j != cur ==> #[trigger] self.dict.wordlists@[j] == d0.wordlists@[j],
            decreases 54 - i,
        {
            let (name, op) = ops[i];
            let ghost before = self.dict;
            self.dict.insert(name.to_owned(), WordKind::Primitive(op.to_u8() as usize));
            proof {
                assert(words.take(i + 1).drop_last() =~= words.take(i as int));
                assert(words.take(i + 1).last() == words[i as int]);
                assert forall|j: int| 0 <= j < d0.wordlists@.len() && j != cur implies #[trigger] self.dict.wordlists@[j] == d0.wordlists@[j] by {
                    assert(self.dict.wordlists@[j] == before.wordlists@[j]);
                }
                assert forall|j: int| 0 <= j < d0.entries@.len() implies #[trigger] self.dict.entries@[j] == d0.entries@[j] by {
                    assert(self.dict.entries@[j] == before.entries@[j]);
                }
                assert forall|k: int| 0 <= k < i + 1 implies #[trigger] self.dict.entries@[d0.entries@.len() + k]@ == (WordEntryView {
                    name: words[k].0,
                    kind: WordKind::Primitive(words[k].1.code() as usize),
                    is_immediate: false,
                    is_hidden: false,
                }) by {
                    if k < i {
                        assert(self.dict.entries@[d0.entries@.len() + k] == before.entries@[d0.entries@.len() + k]);
                    }
                }
            }
            i = i + 1;
        }
        assert(words.take(54) =~= words);
    }

    /// Compiles, in order, every pattern waiting for the JIT that has a
    /// contract, into a block at its address, for `target` at time `now`,
    /// and empties the queue. A pattern that cannot be compiled is dropped;
    /// so is one whose jumps overflow an `i64` or whose block would end past
    /// the largest address. At each address the last entry that compiles
    /// wins (`synced`); which entries the operating system refused an
    /// executable mapping is not stated. An address no entry compiled for
    /// keeps the block it had.
    #[verifier::rlimit(80)]
    pub fn synchronize_jit(&mut self, target: JitTarget, now: u64) -> (r: ForthResult<()>)
        ensures
            r is Ok,
            final(self).optimizer.pending_jit@.len() == 0,
            *final(self) == (System { jit: final(self).jit, optimizer: final(self).optimizer, ..*old(self) }),
            final(self).optimizer == (OptimizerState { pending_jit: final(self).optimizer.pending_jit, ..old(self).optimizer }),
            exists|failed: Set<int>| #[trigger] synced(old(self).jit.blocks@, final(self).jit.blocks@,
                old(self).optimizer.pending_jit@, old(self).optimizer.pending_jit@.len() as int, failed, target, now),
            !target.x86_64 ==> final(self).jit.blocks@ == old(self).jit.blocks@,
    {
        let mut pending: Vec<(usize, crate::optimizer::analysis::PatternContext)> = Vec::new();
        std::mem::swap(&mut pending, &mut self.optimizer.pending_jit);
        let ghost queue = pending@;
        let ghost mut failed: Set<int> = Set::empty();
        let mut i: usize = 0;
        while i < pending.len()
            invariant
                i <= pending@.len(),
                pending@ == queue,
                queue == old(self).optimizer.pending_jit@,
                self.optimizer.pending_jit@.len() == 0,
                *self == (System { jit: self.jit, optimizer: self.optimizer, ..*old(self) }),
                self.optimizer == (OptimizerState { pending_jit: self.optimizer.pending_jit, ..old(self).optimizer }),
                synced(old(self).jit.blocks@, self.jit.blocks@, queue, i as int, failed, target, now),
                forall|j: int| #[trigger] failed.contains(j) ==> 0 <= j < i,
                !target.x86_64 ==> self.jit.blocks@ == old(self).jit.blocks@,
            decreases pending.len() - i,
        {
            let ip = pending[i].0;
            let ghost before = self.jit.blocks@;
            let ghost e = (queue[i as int].0, queue[i as int].1@);
            let mut compiled = false;
            if let Some(contract) = &pending[i].1.contract {
                let ops = copy_ops(pending[i].1.ops.as_slice());
                let ctx = pending[i].1.duplicate();
                if ops.len() <= usize::MAX - ip && pending[i].1.original_ops.len() <= usize::MAX - ip && jumps_fit(&ops) {
                    let res = self.jit.compile_super(ip, ops.as_slice(), contract, Some(ctx), target, now);
                    compiled = res.is_ok();
                    proof {
                        if res is Ok {
                            assert(compilable(e, target));
                            assert(compiled_block(self.jit.blocks@[ip], ip, queue[i as int].1@, target, now));
                        }
                    }
                }
            }
            proof {
                let ob = old(self).jit.blocks@;
                let after = self.jit.blocks@;
                let f0 = failed;
                assert(!compiled ==> after == before);
                assert(compiled ==> compilable(e, target) && after.contains_key(ip)
                    && compiled_block(after[ip], ip, queue[i as int].1@, target, now));
                assert(forall|k: usize| k != ip ==> (#[trigger] after.contains_key(k) == before.contains_key(k)
                    && (before.contains_key(k) ==> after[k] == before[k])));
                if !compiled && compilable(e, target) {
                    failed = failed.insert(i as int);
                }
                assert forall|k: usize| #![trigger winner(queue, i + 1, k, failed, target)] {
                    let w = winner(queue, i + 1, k, failed, target);
                    if w >= 0 {
                        after.contains_key(k) && compiled_block(after[k], k, queue[w].1@, target, now)
                    } else {
                        after.contains_key(k) == ob.contains_key(k) && (ob.contains_key(k) ==> after[k] == ob[k])
                    }
                } by {
                    lemma_winner_failed(queue, i as int, k, f0, i as int, target);
                    assert(winner(queue, i as int, k, failed, target) == winner(queue, i as int, k, f0, target));
                    let w0 = winner(queue, i as int, k, f0, target);
                    assert(w0 >= 0 ==> before.contains_key(k) && compiled_block(before[k], k, queue[w0].1@, target, now));
                    assert(w0 < 0 ==> before.contains_key(k) == ob.contains_key(k) && (ob.contains_key(k) ==> before[k] == ob[k]));
                    if k != ip {
                        lemma_winner_step(queue, i as int, k, failed, target);
                    } else if compiled {
                        assert(queue[i as int].0 == k);
                        assert(!failed.contains(i as int));
                        assert(winner(queue, i + 1, k, failed, target) == i);
                    } else {
                        assert(winner(queue, i + 1, k, failed, target) == winner(queue, i as int, k, failed, target));
                    }
                }
                assert(synced(ob, after, queue, i + 1, failed, target, now));
                assert forall|j: int| #[trigger] failed.contains(j) implies 0 <= j < i + 1 by {
                    if j != i {
                        assert(f0.contains(j));
                    }
                }
            }
            i = i + 1;
        }
        proof {
            assert(synced(old(self).jit.blocks@, self.jit.blocks@, queue, queue.len() as int, failed, target, now));
        }
        Ok(())
    }
}

} // verus!
