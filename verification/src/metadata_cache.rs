//! An in-memory store of providers keyed by their name.  Loading it from
//! disk and writing it back are the surrounding program's business; the
//! store itself only promises what it holds.

use vstd::prelude::*;

use crate::provider::EvtProvider;
use crate::strutil::str_eq;

verus! {

/// The provider stored under a name: the first (and, as names are unique,
/// only) match.
pub open spec fn cache_get(s: Seq<EvtProvider>, name: Seq<char>) -> Option<EvtProvider>
    decreases s.len(),
{
    if s.len() == 0 {
        None
    } else if s[0]@.name == name {
        Some(s[0])
    } else {
        cache_get(s.drop_first(), name)
    }
}

/// The store without the named provider.
pub open spec fn cache_remove(s: Seq<EvtProvider>, name: Seq<char>) -> Seq<EvtProvider>
    decreases s.len(),
{
    if s.len() == 0 {
        s
    } else if s[0]@.name == name {
        s.drop_first()
    } else {
        seq![s[0]] + cache_remove(s.drop_first(), name)
    }
}

/// The provider store, names unique, insertion order kept.
#[derive(Debug)]
pub struct EvtCache {
    data: Vec<EvtProvider>,
}

impl View for EvtCache {
    type V = Seq<EvtProvider>;

    closed spec fn view(&self) -> Seq<EvtProvider> {
        self.data@
    }
}

proof fn lemma_cache_get_found(s: Seq<EvtProvider>, name: Seq<char>, j: int)
    requires
        0 <= j < s.len(),
        s[j]@.name == name,
        forall|k: int| 0 <= k < j ==> (#[trigger] s[k])@.name != name,
    ensures
        cache_get(s, name) == Some(s[j]),
    decreases s.len(),
{
    if s[0]@.name == name {
        assert(j == 0);
    } else {
        assert(forall|k: int| 0 <= k < j - 1 ==> (#[trigger] s.drop_first()[k])@.name != name);
        lemma_cache_get_found(s.drop_first(), name, j - 1);
    }
}

proof fn lemma_cache_get_fresh(s: Seq<EvtProvider>, name: Seq<char>)
    requires
        forall|k: int| 0 <= k < s.len() ==> (#[trigger] s[k])@.name != name,
    ensures
        cache_get(s, name) is None,
    decreases s.len(),
{
    if s.len() > 0 {
        assert(forall|k: int|
            0 <= k < s.drop_first().len() ==> (#[trigger] s.drop_first()[k])@.name != name);
        lemma_cache_get_fresh(s.drop_first(), name);
    }
}

proof fn lemma_cache_remove_found(s: Seq<EvtProvider>, name: Seq<char>, j: int)
    requires
        0 <= j < s.len(),
        s[j]@.name == name,
        forall|k: int| 0 <= k < j ==> (#[trigger] s[k])@.name != name,
    ensures
        cache_remove(s, name) == s.remove(j),
    decreases s.len(),
{
    if s[0]@.name == name {
        assert(j == 0);
        assert(cache_remove(s, name) =~= s.remove(0));
    } else {
        assert(forall|k: int| 0 <= k < j - 1 ==> (#[trigger] s.drop_first()[k])@.name != name);
        lemma_cache_remove_found(s.drop_first(), name, j - 1);
        assert(cache_remove(s, name) =~= s.remove(j));
    }
}

proof fn lemma_cache_remove_fresh(s: Seq<EvtProvider>, name: Seq<char>)
    requires
        forall|k: int| 0 <= k < s.len() ==> (#[trigger] s[k])@.name != name,
    ensures
        cache_remove(s, name) == s,
    decreases s.len(),
{
    if s.len() > 0 {
        assert(forall|k: int|
            0 <= k < s.drop_first().len() ==> (#[trigger] s.drop_first()[k])@.name != name);
        lemma_cache_remove_fresh(s.drop_first(), name);
        assert(cache_remove(s, name) =~= s);
    }
}

impl EvtCache {
    /// An empty store.
    pub fn new() -> (r: EvtCache)
        ensures
            r@ == Seq::<EvtProvider>::empty(),
    {
        EvtCache { data: Vec::new() }
    }

    pub fn len(&self) -> (n: usize)
        ensures
            n == self@.len(),
    {
        self.data.len()
    }

    /// The position of a name, with everything before it name-free.
    fn find_name(&self, name: &str) -> (r: Option<usize>)
        ensures
            match r {
                Some(j) => j < self@.len() && self@[j as int]@.name == name@ && (forall|k: int|
                    0 <= k < j ==> (#[trigger] self@[k])@.name != name@),
                None => forall|k: int|
                    0 <= k < self@.len() ==> (#[trigger] self@[k])@.name != name@,
            },
    {
        let n = self.data.len();
        let mut i: usize = 0;
        while i < n
            invariant
                i <= n,
                n == self@.len(),
                forall|k: int| 0 <= k < i ==> (#[trigger] self@[k])@.name != name@,
            decreases n - i,
        {
            if str_eq(self.data[i].get_name(), name) {
                return Some(i);
            }
            i = i + 1;
        }
        None
    }

    /// Stores a provider unless one of its name is already held: the first
    /// arrival wins.
    pub fn add_provider(&mut self, provider: EvtProvider)
        ensures
            final(self)@ == (if cache_get(old(self)@, provider@.name) is Some {
                old(self)@
            } else {
                old(self)@.push(provider)
            }),
    {
        let ghost s0 = self@;
        match self.find_name(provider.get_name()) {
            Some(j) => {
                proof {
                    lemma_cache_get_found(s0, provider@.name, j as int);
                }
            },
            None => {
                proof {
                    lemma_cache_get_fresh(s0, provider@.name);
                }
                self.data.push(provider);
            },
        }
    }

    /// The provider stored under a name.
    pub fn get_provider(&self, name: &str) -> (r: Option<&EvtProvider>)
        ensures
            match r {
                Some(p) => cache_get(self@, name@) == Some(*p),
                None => cache_get(self@, name@) is None,
            },
    {
        match self.find_name(name) {
            Some(j) => {
                proof {
                    lemma_cache_get_found(self@, name@, j as int);
                }
                Some(&self.data[j])
            },
            None => {
                proof {
                    lemma_cache_get_fresh(self@, name@);
                }
                None
            },
        }
    }

    /// Drops the provider stored under a name, if any.
    pub fn remove_provider(&mut self, name: &str)
        ensures
            final(self)@ == cache_remove(old(self)@, name@),
    {
        let ghost s0 = self@;
        match self.find_name(name) {
            Some(j) => {
                self.data.remove(j);
                proof {
                    lemma_cache_remove_found(s0, name@, j as int);
                }
            },
            None => {
                proof {
                    lemma_cache_remove_fresh(s0, name@);
                }
            },
        }
    }

    /// Whether a provider of this name is held.
    pub fn provider_exists(&self, name: &str) -> (r: bool)
        ensures
            r == (cache_get(self@, name@) is Some),
    {
        match self.get_provider(name) {
            Some(_) => true,
            None => false,
        }
    }

    /// The names of all held providers, in storage order.
    pub fn get_all_providers(&self) -> (r: Vec<String>)
        ensures
            r@.map_values(|t: String| t@) == self@.map_values(|p: EvtProvider| p@.name),
    {
        let n = self.data.len();
        let mut r: Vec<String> = Vec::new();
        let mut i: usize = 0;
        while i < n
            invariant
                i <= n,
                n == self@.len(),
                r@.len() == i,
                forall|k: int| 0 <= k < i ==> (#[trigger] r@[k])@ == self@[k]@.name,
            decreases n - i,
        {
            let nm = String::from_str(self.data[i].get_name());
            proof {
                assert(nm@ == self@[i as int]@.name);
            }
            r.push(nm);
            i = i + 1;
        }
        proof {
            let l = r@.map_values(|t: String| t@);
            let rr = self@.map_values(|p: EvtProvider| p@.name);
            assert forall|k: int| 0 <= k < l.len() implies l[k] == rr[k] by {
                assert(l[k] == r@[k]@);
                assert(rr[k] == self@[k]@.name);
            }
            assert(l =~= rr);
        }
        r
    }

    /// The held providers themselves.
    pub fn get_data(&self) -> (r: &Vec<EvtProvider>)
        ensures
            r@ == self@,
    {
        &self.data
    }
}

} // verus!
