//! Per-provider symbol tables: named codes for severity levels, tasks,
//! operation codes and keyword bit flags, plus the channel reference table.
//! A table keeps its entries in insertion order under unique numeric keys; a
//! colliding insertion overwrites the earlier entry in place (last write
//! wins, a data-quality condition and never an error).

use vstd::prelude::*;
use vstd::pervasive::VecAdditionalExecFns;

verus! {

/// One named code of a provider's vocabulary.  The optional event GUID is
/// populated only in task tables.
#[derive(Debug, Clone, PartialEq)]
pub struct SymbolEntry {
    pub name: String,
    pub message: Option<String>,
    pub guid: Option<u128>,
}

/// The mathematical value of a `SymbolEntry`.
pub struct SymbolEntryView {
    pub name: Seq<char>,
    pub message: Option<Seq<char>>,
    pub guid: Option<u128>,
}

impl View for SymbolEntry {
    type V = SymbolEntryView;

    open spec fn view(&self) -> SymbolEntryView {
        SymbolEntryView {
            name: self.name@,
            message: match self.message {
                Some(m) => Some(m@),
                None => None,
            },
            guid: self.guid,
        }
    }
}

/// One channel reference of a provider.  Sub-properties that the metadata
/// interface did not supply stay absent; only the name is required for the
/// reference to be usable.
#[derive(Debug, Clone, PartialEq)]
pub struct ChannelEntry {
    pub name: String,
    pub message: Option<String>,
    pub index: Option<u32>,
    pub imported: Option<bool>,
}

/// The mathematical value of a `ChannelEntry`.
pub struct ChannelEntryView {
    pub name: Seq<char>,
    pub message: Option<Seq<char>>,
    pub index: Option<u32>,
    pub imported: Option<bool>,
}

impl View for ChannelEntry {
    type V = ChannelEntryView;

    open spec fn view(&self) -> ChannelEntryView {
        ChannelEntryView {
            name: self.name@,
            message: match self.message {
                Some(m) => Some(m@),
                None => None,
            },
            index: self.index,
            imported: self.imported,
        }
    }
}

/// Keys must be unique within one table.
pub open spec fn unique_keys<V>(s: Seq<(u64, V)>) -> bool {
    forall|i: int, j: int| 0 <= i < j < s.len() ==> (#[trigger] s[i]).0 != (#[trigger] s[j]).0
}

/// The entry under a key: the first (and, with unique keys, only) match.
pub open spec fn spec_get<V>(s: Seq<(u64, V)>, code: u64) -> Option<V>
    decreases s.len(),
{
    if s.len() == 0 {
        None
    } else if s[0].0 == code {
        Some(s[0].1)
    } else {
        spec_get(s.drop_first(), code)
    }
}

/// Insertion with last-write-wins overwrite: a colliding key keeps its
/// position and takes the new entry; a fresh key goes to the end.
pub open spec fn spec_insert<V>(s: Seq<(u64, V)>, code: u64, e: V) -> Seq<(u64, V)>
    decreases s.len(),
{
    if s.len() == 0 {
        seq![(code, e)]
    } else if s[0].0 == code {
        seq![(code, e)] + s.drop_first()
    } else {
        seq![s[0]] + spec_insert(s.drop_first(), code, e)
    }
}

/// An insertion-ordered table of entries keyed by numeric code.
#[derive(Debug, Clone, PartialEq)]
pub struct CodeTable<E> {
    entries: Vec<(u64, E)>,
}

/// The symbol tables for levels, tasks, operation codes and keywords.
pub type SymbolTable = CodeTable<SymbolEntry>;

/// The channel reference table of a provider.
pub type ChannelTable = CodeTable<ChannelEntry>;

impl<E: View> View for CodeTable<E> {
    type V = Seq<(u64, E::V)>;

    closed spec fn view(&self) -> Seq<(u64, E::V)> {
        Seq::new(self.entries@.len(), |i: int| (self.entries@[i].0, self.entries@[i].1@))
    }
}

proof fn lemma_get_found<V>(s: Seq<(u64, V)>, code: u64, j: int)
    requires
        0 <= j < s.len(),
        s[j].0 == code,
    ensures
        spec_get(s, code) is Some,
    decreases s.len(),
{
    if s[0].0 == code {
    } else {
        lemma_get_found(s.drop_first(), code, j - 1);
    }
}

proof fn lemma_get_fresh<V>(s: Seq<(u64, V)>, code: u64)
    requires
        forall|k: int| 0 <= k < s.len() ==> (#[trigger] s[k]).0 != code,
    ensures
        spec_get(s, code) is None,
    decreases s.len(),
{
    if s.len() > 0 {
        assert(forall|k: int|
            0 <= k < s.drop_first().len() ==> (#[trigger] s.drop_first()[k]).0 != code);
        lemma_get_fresh(s.drop_first(), code);
    }
}

proof fn lemma_insert_found<V>(s: Seq<(u64, V)>, code: u64, e: V, j: int)
    requires
        0 <= j < s.len(),
        s[j].0 == code,
        forall|i: int| 0 <= i < j ==> (#[trigger] s[i]).0 != code,
    ensures
        spec_insert(s, code, e) == s.update(j, (code, e)),
    decreases s.len(),
{
    if s[0].0 == code {
        assert(j == 0);
        assert(spec_insert(s, code, e) =~= s.update(0, (code, e)));
    } else {
        assert(forall|i: int| 0 <= i < j - 1 ==> (#[trigger] s.drop_first()[i]).0 != code);
        lemma_insert_found(s.drop_first(), code, e, j - 1);
        assert(spec_insert(s, code, e) =~= s.update(j, (code, e)));
    }
}

proof fn lemma_insert_fresh<V>(s: Seq<(u64, V)>, code: u64, e: V)
    requires
        forall|i: int| 0 <= i < s.len() ==> (#[trigger] s[i]).0 != code,
    ensures
        spec_insert(s, code, e) == s.push((code, e)),
    decreases s.len(),
{
    if s.len() == 0 {
        assert(spec_insert(s, code, e) =~= s.push((code, e)));
    } else {
        assert(forall|i: int|
            0 <= i < s.drop_first().len() ==> (#[trigger] s.drop_first()[i]).0 != code);
        lemma_insert_fresh(s.drop_first(), code, e);
        assert(spec_insert(s, code, e) =~= s.push((code, e)));
    }
}

impl<E: View> CodeTable<E> {
    /// An empty table.
    pub fn new() -> (r: CodeTable<E>)
        ensures
            r@ == Seq::<(u64, E::V)>::empty(),
            unique_keys(r@),
    {
        let r = CodeTable { entries: Vec::new() };
        proof {
            assert(r@ =~= Seq::<(u64, E::V)>::empty());
        }
        r
    }

    pub fn len(&self) -> (n: usize)
        ensures
            n == self@.len(),
    {
        self.entries.len()
    }

    pub fn key_at(&self, i: usize) -> (k: u64)
        requires
            i < self@.len(),
        ensures
            k == self@[i as int].0,
    {
        self.entries[i].0
    }

    pub fn entry_at(&self, i: usize) -> (e: &E)
        requires
            i < self@.len(),
        ensures
            e@ == self@[i as int].1,
    {
        &self.entries[i].1
    }

    /// The entry declared under a numeric code, if any.
    pub fn get(&self, code: u64) -> (r: Option<&E>)
        ensures
            match r {
                Some(e) => spec_get(self@, code) == Some(e@),
                None => spec_get(self@, code) is None,
            },
    {
        let n = self.entries.len();
        let mut i: usize = 0;
        proof {
            assert(self@.skip(0) =~= self@);
        }
        while i < n
            invariant
                i <= n,
                n == self@.len(),
                spec_get(self@, code) == spec_get(self@.skip(i as int), code),
            decreases n - i,
        {
            proof {
                assert(self@.skip(i as int)[0] == self@[i as int]);
                assert(self@.skip(i as int).drop_first() =~= self@.skip(i + 1));
            }
            if self.entries[i].0 == code {
                return Some(&self.entries[i].1);
            }
            i = i + 1;
        }
        proof {
            assert(self@.skip(n as int) =~= Seq::<(u64, E::V)>::empty());
        }
        None
    }

    /// The position of a key, with everything before it key-free.
    fn find_key(&self, code: u64) -> (r: Option<usize>)
        ensures
            match r {
                Some(j) => j < self@.len() && self@[j as int].0 == code && (forall|k: int|
                    0 <= k < j ==> (#[trigger] self@[k]).0 != code),
                None => forall|k: int| 0 <= k < self@.len() ==> (#[trigger] self@[k]).0 != code,
            },
    {
        let n = self.entries.len();
        let mut i: usize = 0;
        while i < n
            invariant
                i <= n,
                n == self@.len(),
                forall|k: int| 0 <= k < i ==> (#[trigger] self@[k]).0 != code,
            decreases n - i,
        {
            if self.entries[i].0 == code {
                return Some(i);
            }
            i = i + 1;
        }
        None
    }

    /// Inserts under a numeric code; an existing entry under the same code is
    /// overwritten in place.  Returns whether an overwrite happened.
    pub fn insert(&mut self, code: u64, e: E) -> (replaced: bool)
        ensures
            final(self)@ == spec_insert(old(self)@, code, e@),
            replaced == (spec_get(old(self)@, code) is Some),
            unique_keys(old(self)@) ==> unique_keys(final(self)@),
    {
        let ghost s0 = self@;
        match self.find_key(code) {
            Some(j) => {
                self.entries.set(j, (code, e));
                proof {
                    lemma_get_found(s0, code, j as int);
                    lemma_insert_found(s0, code, e@, j as int);
                    assert(self@ =~= s0.update(j as int, (code, e@)));
                    if unique_keys(s0) {
                        assert forall|p: int, q: int|
                            0 <= p < q < self@.len() implies (#[trigger] self@[p]).0 != (
                        #[trigger] self@[q]).0 by {
                            assert(s0[p].0 == self@[p].0);
                            assert(s0[q].0 == self@[q].0);
                        }
                    }
                }
                true
            },
            None => {
                self.entries.push((code, e));
                proof {
                    lemma_get_fresh(s0, code);
                    lemma_insert_fresh(s0, code, e@);
                    assert(self@ =~= s0.push((code, e@)));
                    if unique_keys(s0) {
                        assert forall|p: int, q: int|
                            0 <= p < q < self@.len() implies (#[trigger] self@[p]).0 != (
                        #[trigger] self@[q]).0 by {
                            if q < s0.len() {
                                assert(s0[p].0 == self@[p].0);
                                assert(s0[q].0 == self@[q].0);
                            } else {
                                assert(self@[q] == (code, e@));
                                assert(s0[p].0 != code);
                            }
                        }
                    }
                }
                false
            },
        }
    }
}

/// Whether one keyword flag key is selected by an event's flag word: the key
/// must lie in the provider-definable low 56 bits, and share a set bit with
/// the word.
pub open spec fn keyword_matches(word: u64, key: u64) -> bool {
    key < 0x0100_0000_0000_0000 && (word & key) != 0
}

/// The names a keyword flag word resolves to against a keyword table: the
/// names of exactly the selected keys, in the table's insertion order.
pub open spec fn spec_resolve_keywords(word: u64, s: Seq<(u64, SymbolEntryView)>) -> Seq<
    Seq<char>,
> {
    s.filter(|p: (u64, SymbolEntryView)| keyword_matches(word, p.0)).map_values(
        |p: (u64, SymbolEntryView)| p.1.name,
    )
}

/// A flag word of zero selects nothing, whatever the table.
pub proof fn lemma_resolve_keywords_zero(s: Seq<(u64, SymbolEntryView)>)
    ensures
        spec_resolve_keywords(0, s) == Seq::<Seq<char>>::empty(),
{
    let pred = |p: (u64, SymbolEntryView)| keyword_matches(0, p.0);
    assert forall|p: (u64, SymbolEntryView)| !(#[trigger] pred(p)) by {
        assert(0u64 & p.0 == 0) by (bit_vector);
    }
    s.lemma_all_neg_filter_empty(pred);
    assert(s.filter(pred).len() == 0);
    assert(spec_resolve_keywords(0, s) =~= Seq::<Seq<char>>::empty());
}

/// Resolves an event's 64-bit keyword flag word against a keyword table: the
/// result holds the name of every entry whose key shares a set bit with the
/// word and lies in the low 56 bits, in the table's insertion order.  A word
/// of zero yields an empty list.
pub fn resolve_keywords(word: u64, table: &SymbolTable) -> (r: Vec<String>)
    ensures
        r@.map_values(|s: String| s@) == spec_resolve_keywords(word, table@),
{
    let n = table.len();
    let mut r: Vec<String> = Vec::new();
    let mut i: usize = 0;
    proof {
        assert(table@.take(0) =~= Seq::<(u64, SymbolEntryView)>::empty());
        assert(table@.take(0).filter(|p: (u64, SymbolEntryView)| keyword_matches(word, p.0))
            =~= Seq::<(u64, SymbolEntryView)>::empty());
        assert(r@.map_values(|s: String| s@) =~= spec_resolve_keywords(word, table@.take(0)));
    }
    while i < n
        invariant
            i <= n,
            n == table@.len(),
            r@.map_values(|s: String| s@) == spec_resolve_keywords(word, table@.take(i as int)),
        decreases n - i,
    {
        let ghost pre = table@.take(i as int);
        let ghost cur = table@[i as int];
        proof {
            assert(table@.take(i + 1).drop_last() =~= pre);
            assert(table@.take(i + 1).last() == cur);
            reveal_with_fuel(Seq::filter, 2);
            assert(table@.take(i + 1).filter(
                |p: (u64, SymbolEntryView)| keyword_matches(word, p.0),
            ) == pre.filter(|p: (u64, SymbolEntryView)| keyword_matches(word, p.0)) + (
            if keyword_matches(word, cur.0) {
                seq![cur]
            } else {
                Seq::<(u64, SymbolEntryView)>::empty()
            }));
        }
        let key = table.key_at(i);
        let selected = key < 0x0100_0000_0000_0000 && (word & key) != 0;
        if selected {
            let e = table.entry_at(i);
            r.push(e.name.clone());
            proof {
                let f = pre.filter(|p: (u64, SymbolEntryView)| keyword_matches(word, p.0));
                assert(r@.map_values(|s: String| s@) =~= f.map_values(
                    |p: (u64, SymbolEntryView)| p.1.name,
                ).push(cur.1.name));
                assert((f + seq![cur]).map_values(|p: (u64, SymbolEntryView)| p.1.name)
                    =~= f.map_values(|p: (u64, SymbolEntryView)| p.1.name).push(cur.1.name));
            }
        } else {
            proof {
                let f = pre.filter(|p: (u64, SymbolEntryView)| keyword_matches(word, p.0));
                assert(f + Seq::<(u64, SymbolEntryView)>::empty() =~= f);
            }
        }
        i = i + 1;
    }
    proof {
        assert(table@.take(n as int) =~= table@);
    }
    r
}

} // verus!
