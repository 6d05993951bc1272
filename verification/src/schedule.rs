//! Collection scheduling: the (channel → providers) task partition, the
//! extraction of a channel key from an archived log file's path, and the
//! final timestamp ordering of collected records.

use vstd::prelude::*;

use crate::events::EvtEvent;
use crate::provider::EvtProvider;
use crate::strutil::{lemma_lex_total, lemma_lex_trans, lex_leq, push_char, str_eq, str_lex_leq,
    vec_contains_str};

verus! {

/// A path separator, in either convention.
pub open spec fn is_sep(c: char) -> bool {
    c == '/' || c == '\\'
}

/// The final path component: everything after the last separator.
pub open spec fn spec_base_name(s: Seq<char>) -> Seq<char>
    decreases s.len(),
{
    if s.len() == 0 {
        s
    } else if is_sep(s.last()) {
        Seq::empty()
    } else {
        spec_base_name(s.drop_last()).push(s.last())
    }
}

/// The last position a character occurs at, or -1.
pub open spec fn spec_last_index(s: Seq<char>, c: char) -> int
    decreases s.len(),
{
    if s.len() == 0 {
        -1
    } else if s.last() == c {
        s.len() - 1
    } else {
        spec_last_index(s.drop_last(), c)
    }
}

/// A file name without its extension: cut at the last dot, unless that dot
/// leads the name.
pub open spec fn spec_stem(s: Seq<char>) -> Seq<char> {
    let d = spec_last_index(s, '.');
    if d > 0 {
        s.take(d)
    } else {
        s
    }
}

/// The subsystem's escaping of path separators in channel-derived file
/// names, undone: every "%4" becomes one "/".
pub open spec fn spec_restore_separators(s: Seq<char>) -> Seq<char>
    decreases s.len(),
{
    if s.len() >= 2 && s[0] == '%' && s[1] == '4' {
        seq!['/'] + spec_restore_separators(s.skip(2))
    } else if s.len() == 0 {
        Seq::empty()
    } else {
        seq![s[0]] + spec_restore_separators(s.drop_first())
    }
}

/// The length of the leading run free of dashes.
pub open spec fn spec_dash_run(s: Seq<char>) -> int
    decreases s.len(),
{
    if s.len() == 0 || s[0] == '-' {
        0
    } else {
        1 + spec_dash_run(s.drop_first())
    }
}

/// The channel key an archived log file's path stands for.  The path's file
/// name is taken, its extension cut, its escaped separators restored; a name
/// following the archive convention — the archive prefix, a nonempty dash-free
/// channel name, a dash, and anything after — yields that embedded name, any
/// other name is the key itself.
pub open spec fn spec_file_key(path: Seq<char>) -> Seq<char> {
    let name = spec_restore_separators(spec_stem(spec_base_name(path)));
    if name.len() >= 8 && name.take(8) == "Archive-"@ {
        let rest = name.skip(8);
        let run = spec_dash_run(rest);
        if 0 < run < rest.len() {
            rest.take(run)
        } else {
            name
        }
    } else {
        name
    }
}

proof fn lemma_base_name_no_sep(s: Seq<char>)
    requires
        forall|k: int| 0 <= k < s.len() ==> !is_sep(#[trigger] s[k]),
    ensures
        spec_base_name(s) == s,
    decreases s.len(),
{
    if s.len() > 0 {
        lemma_base_name_no_sep(s.drop_last());
        assert(s.drop_last().push(s.last()) =~= s);
    }
}

proof fn lemma_base_name_at(s: Seq<char>, j: int)
    requires
        0 <= j < s.len(),
        is_sep(s[j]),
        forall|k: int| j < k < s.len() ==> !is_sep(#[trigger] s[k]),
    ensures
        spec_base_name(s) == s.skip(j + 1),
    decreases s.len(),
{
    if j == s.len() - 1 {
        assert(s.skip(j + 1) =~= Seq::<char>::empty());
    } else {
        lemma_base_name_at(s.drop_last(), j);
        assert(s.drop_last().skip(j + 1).push(s.last()) =~= s.skip(j + 1));
    }
}

proof fn lemma_last_index_none(s: Seq<char>, c: char)
    requires
        forall|k: int| 0 <= k < s.len() ==> #[trigger] s[k] != c,
    ensures
        spec_last_index(s, c) == -1,
    decreases s.len(),
{
    if s.len() > 0 {
        lemma_last_index_none(s.drop_last(), c);
    }
}

proof fn lemma_last_index_at(s: Seq<char>, c: char, j: int)
    requires
        0 <= j < s.len(),
        s[j] == c,
        forall|k: int| j < k < s.len() ==> #[trigger] s[k] != c,
    ensures
        spec_last_index(s, c) == j,
    decreases s.len(),
{
    if j < s.len() - 1 {
        lemma_last_index_at(s.drop_last(), c, j);
    }
}

/// The final path component of a path string.
fn base_name<'a>(s: &'a str) -> (r: &'a str)
    ensures
        r@ == spec_base_name(s@),
{
    let n = s.unicode_len();
    let mut sep: Option<usize> = None;
    let mut i: usize = 0;
    while i < n
        invariant
            i <= n,
            n == s@.len(),
            match sep {
                Some(v) => v < i && is_sep(s@[v as int]) && (forall|k: int|
                    v < k < i ==> !is_sep(#[trigger] s@[k])),
                None => forall|k: int| 0 <= k < i ==> !is_sep(#[trigger] s@[k]),
            },
        decreases n - i,
    {
        let c = s.get_char(i);
        if c == '/' || c == '\\' {
            sep = Some(i);
        }
        i = i + 1;
    }
    match sep {
        Some(v) => {
            proof {
                lemma_base_name_at(s@, v as int);
            }
            s.substring_char(v + 1, n)
        },
        None => {
            proof {
                lemma_base_name_no_sep(s@);
            }
            s
        },
    }
}

/// A file name cut at its last dot, unless that dot leads the name.
fn stem<'a>(s: &'a str) -> (r: &'a str)
    ensures
        r@ == spec_stem(s@),
{
    let n = s.unicode_len();
    let mut dot: Option<usize> = None;
    let mut i: usize = 0;
    while i < n
        invariant
            i <= n,
            n == s@.len(),
            match dot {
                Some(v) => v < i && s@[v as int] == '.' && (forall|k: int|
                    v < k < i ==> #[trigger] s@[k] != '.'),
                None => forall|k: int| 0 <= k < i ==> #[trigger] s@[k] != '.',
            },
        decreases n - i,
    {
        if s.get_char(i) == '.' {
            dot = Some(i);
        }
        i = i + 1;
    }
    match dot {
        Some(v) => {
            proof {
                lemma_last_index_at(s@, '.', v as int);
            }
            if v > 0 {
                s.substring_char(0, v)
            } else {
                proof {
                    assert(s@.take(0) =~= Seq::<char>::empty());
                }
                s
            }
        },
        None => {
            proof {
                lemma_last_index_none(s@, '.');
            }
            s
        },
    }
}

/// Undoes the subsystem's separator escaping: every "%4" becomes one "/".
fn restore_separators(s: &str) -> (r: String)
    ensures
        r@ == spec_restore_separators(s@),
{
    let n = s.unicode_len();
    let mut out = String::new();
    let mut i: usize = 0;
    proof {
        assert(s@.skip(0) =~= s@);
        assert(Seq::<char>::empty() + spec_restore_separators(s@) =~= spec_restore_separators(
            s@,
        ));
    }
    while i < n
        invariant
            i <= n,
            n == s@.len(),
            spec_restore_separators(s@) == out@ + spec_restore_separators(s@.skip(i as int)),
        decreases n - i,
    {
        let ghost tail = s@.skip(i as int);
        let ghost pre = out@;
        proof {
            assert(tail[0] == s@[i as int]);
            if tail.len() >= 2 {
                assert(tail[1] == s@[i + 1]);
            }
        }
        let c = s.get_char(i);
        if c == '%' && i + 1 < n && s.get_char(i + 1) == '4' {
            push_char(&mut out, '/');
            proof {
                assert(tail.skip(2) =~= s@.skip(i + 2));
                assert(pre + (seq!['/'] + spec_restore_separators(tail.skip(2))) =~= out@
                    + spec_restore_separators(tail.skip(2)));
            }
            i = i + 2;
        } else {
            push_char(&mut out, c);
            proof {
                assert(tail.drop_first() =~= s@.skip(i + 1));
                assert(pre + (seq![tail[0]] + spec_restore_separators(tail.drop_first())) =~= out@
                    + spec_restore_separators(tail.drop_first()));
            }
            i = i + 1;
        }
    }
    proof {
        assert(s@.skip(n as int) =~= Seq::<char>::empty());
        assert(out@ + Seq::<char>::empty() =~= out@);
    }
    out
}

/// The channel key an archived log file's path stands for: the embedded
/// channel name under the archive naming convention, else the bare file name
/// with extension cut and separators restored.
pub fn file_key_of(path: &str) -> (r: String)
    ensures
        r@ == spec_file_key(path@),
{
    let b = base_name(path);
    let st = stem(b);
    let name = restore_separators(st);
    let n = name.as_str().unicode_len();
    if n >= 8 && str_eq(name.as_str().substring_char(0, 8), "Archive-") {
        proof {
            assert(name@.subrange(0, 8) =~= name@.take(8));
        }
        let rest = name.as_str().substring_char(8, n);
        proof {
            assert(name@.subrange(8, n as int) =~= name@.skip(8));
        }
        let m = rest.unicode_len();
        let mut run: usize = 0;
        proof {
            assert(rest@.skip(0) =~= rest@);
        }
        while run < m && rest.get_char(run) != '-'
            invariant
                run <= m,
                m == rest@.len(),
                spec_dash_run(rest@) == run + spec_dash_run(rest@.skip(run as int)),
                forall|k: int| 0 <= k < run ==> #[trigger] rest@[k] != '-',
            decreases m - run,
        {
            proof {
                assert(rest@.skip(run as int)[0] == rest@[run as int]);
                assert(rest@.skip(run as int).drop_first() =~= rest@.skip(run + 1));
            }
            run = run + 1;
        }
        proof {
            if run == m {
                assert(rest@.skip(run as int) =~= Seq::<char>::empty());
            } else {
                assert(rest@.skip(run as int)[0] == rest@[run as int]);
            }
            assert(spec_dash_run(rest@) == run);
        }
        if run > 0 && run < m {
            let key = rest.substring_char(0, run);
            proof {
                assert(rest@.subrange(0, run as int) =~= rest@.take(run as int));
            }
            String::from_str(key)
        } else {
            name
        }
    } else {
        proof {
            if name@.len() >= 8 {
                assert(name@.subrange(0, 8) =~= name@.take(8));
            }
        }
        name
    }
}

/// The view of a task map: each channel key with the provider names to
/// query it under, in first-appearance order.
pub open spec fn task_get(s: Seq<(Seq<char>, Seq<Seq<char>>)>, name: Seq<char>) -> Option<
    Seq<Seq<char>>,
>
    decreases s.len(),
{
    if s.len() == 0 {
        None
    } else if s[0].0 == name {
        Some(s[0].1)
    } else {
        task_get(s.drop_first(), name)
    }
}

/// A provider name joins a channel's list once: a name already present is
/// left where it is.
pub open spec fn spec_add_name(ns: Seq<Seq<char>>, p: Seq<char>) -> Seq<Seq<char>> {
    if ns.contains(p) {
        ns
    } else {
        ns.push(p)
    }
}

/// One (channel, provider) pair added to the partition: a fresh channel
/// opens a new entry at the end, a known one takes the name into its list.
pub open spec fn task_add(
    s: Seq<(Seq<char>, Seq<Seq<char>>)>,
    chan: Seq<char>,
    prov: Seq<char>,
) -> Seq<(Seq<char>, Seq<Seq<char>>)>
    decreases s.len(),
{
    if s.len() == 0 {
        seq![(chan, seq![prov])]
    } else if s[0].0 == chan {
        seq![(s[0].0, spec_add_name(s[0].1, prov))] + s.drop_first()
    } else {
        seq![s[0]] + task_add(s.drop_first(), chan, prov)
    }
}

/// The partition without a channel's entry.
pub open spec fn task_remove(s: Seq<(Seq<char>, Seq<Seq<char>>)>, name: Seq<char>) -> Seq<
    (Seq<char>, Seq<Seq<char>>),
>
    decreases s.len(),
{
    if s.len() == 0 {
        s
    } else if s[0].0 == name {
        s.drop_first()
    } else {
        seq![s[0]] + task_remove(s.drop_first(), name)
    }
}

/// The task partition: channel keys to the provider names to query them
/// under.
#[derive(Debug)]
pub struct TaskMap {
    entries: Vec<(String, Vec<String>)>,
}

impl View for TaskMap {
    type V = Seq<(Seq<char>, Seq<Seq<char>>)>;

    closed spec fn view(&self) -> Seq<(Seq<char>, Seq<Seq<char>>)> {
        Seq::new(
            self.entries@.len(),
            |i: int| (self.entries@[i].0@, self.entries@[i].1@.map_values(|s: String| s@)),
        )
    }
}

proof fn lemma_task_add_found(
    s: Seq<(Seq<char>, Seq<Seq<char>>)>,
    chan: Seq<char>,
    prov: Seq<char>,
    j: int,
)
    requires
        0 <= j < s.len(),
        s[j].0 == chan,
        forall|k: int| 0 <= k < j ==> (#[trigger] s[k]).0 != chan,
    ensures
        task_add(s, chan, prov) == s.update(j, (chan, spec_add_name(s[j].1, prov))),
    decreases s.len(),
{
    if s[0].0 == chan {
        assert(j == 0);
        assert(task_add(s, chan, prov) =~= s.update(0, (chan, spec_add_name(s[0].1, prov))));
    } else {
        assert(forall|k: int| 0 <= k < j - 1 ==> (#[trigger] s.drop_first()[k]).0 != chan);
        lemma_task_add_found(s.drop_first(), chan, prov, j - 1);
        assert(task_add(s, chan, prov) =~= s.update(j, (chan, spec_add_name(s[j].1, prov))));
    }
}

proof fn lemma_task_add_fresh(s: Seq<(Seq<char>, Seq<Seq<char>>)>, chan: Seq<char>, prov: Seq<char>)
    requires
        forall|k: int| 0 <= k < s.len() ==> (#[trigger] s[k]).0 != chan,
    ensures
        task_add(s, chan, prov) == s.push((chan, seq![prov])),
    decreases s.len(),
{
    if s.len() == 0 {
        assert(task_add(s, chan, prov) =~= s.push((chan, seq![prov])));
    } else {
        assert(forall|k: int|
            0 <= k < s.drop_first().len() ==> (#[trigger] s.drop_first()[k]).0 != chan);
        lemma_task_add_fresh(s.drop_first(), chan, prov);
        assert(task_add(s, chan, prov) =~= s.push((chan, seq![prov])));
    }
}

proof fn lemma_task_remove_found(s: Seq<(Seq<char>, Seq<Seq<char>>)>, name: Seq<char>, j: int)
    requires
        0 <= j < s.len(),
        s[j].0 == name,
        forall|k: int| 0 <= k < j ==> (#[trigger] s[k]).0 != name,
    ensures
        task_remove(s, name) == s.remove(j),
        task_get(s, name) == Some(s[j].1),
    decreases s.len(),
{
    if s[0].0 == name {
        assert(j == 0);
        assert(task_remove(s, name) =~= s.remove(0));
    } else {
        assert(forall|k: int| 0 <= k < j - 1 ==> (#[trigger] s.drop_first()[k]).0 != name);
        lemma_task_remove_found(s.drop_first(), name, j - 1);
        assert(task_remove(s, name) =~= s.remove(j));
    }
}

proof fn lemma_task_get_fresh(s: Seq<(Seq<char>, Seq<Seq<char>>)>, name: Seq<char>)
    requires
        forall|k: int| 0 <= k < s.len() ==> (#[trigger] s[k]).0 != name,
    ensures
        task_get(s, name) is None,
    decreases s.len(),
{
    if s.len() > 0 {
        assert(forall|k: int|
            0 <= k < s.drop_first().len() ==> (#[trigger] s.drop_first()[k]).0 != name);
        lemma_task_get_fresh(s.drop_first(), name);
    }
}

impl TaskMap {
    /// An empty partition.
    pub fn new() -> (r: TaskMap)
        ensures
            r@ == Seq::<(Seq<char>, Seq<Seq<char>>)>::empty(),
    {
        let r = TaskMap { entries: Vec::new() };
        proof {
            assert(r@ =~= Seq::<(Seq<char>, Seq<Seq<char>>)>::empty());
        }
        r
    }

    pub fn len(&self) -> (n: usize)
        ensures
            n == self@.len(),
    {
        self.entries.len()
    }

    pub fn key_at(&self, i: usize) -> (r: &String)
        requires
            i < self@.len(),
        ensures
            r@ == self@[i as int].0,
    {
        &self.entries[i].0
    }

    pub fn providers_at(&self, i: usize) -> (r: &Vec<String>)
        requires
            i < self@.len(),
        ensures
            r@.map_values(|t: String| t@) == self@[i as int].1,
    {
        &self.entries[i].1
    }

    /// The position of a channel key, with everything before it key-free.
    fn find_key(&self, name: &str) -> (r: Option<usize>)
        ensures
            match r {
                Some(j) => j < self@.len() && self@[j as int].0 == name@ && (forall|k: int|
                    0 <= k < j ==> (#[trigger] self@[k]).0 != name@),
                None => forall|k: int| 0 <= k < self@.len() ==> (#[trigger] self@[k]).0 != name@,
            },
    {
        let n = self.entries.len();
        let mut i: usize = 0;
        while i < n
            invariant
                i <= n,
                n == self@.len(),
                forall|k: int| 0 <= k < i ==> (#[trigger] self@[k]).0 != name@,
            decreases n - i,
        {
            if str_eq(self.entries[i].0.as_str(), name) {
                return Some(i);
            }
            i = i + 1;
        }
        None
    }

    /// The providers registered under a channel key.
    pub fn get(&self, name: &str) -> (r: Option<&Vec<String>>)
        ensures
            match r {
                Some(v) => task_get(self@, name@) == Some(v@.map_values(|t: String| t@)),
                None => task_get(self@, name@) is None,
            },
    {
        match self.find_key(name) {
            Some(j) => {
                proof {
                    lemma_task_remove_found(self@, name@, j as int);
                }
                Some(&self.entries[j].1)
            },
            None => {
                proof {
                    lemma_task_get_fresh(self@, name@);
                }
                None
            },
        }
    }

    /// Adds one (channel, provider) pair.
    pub fn add(&mut self, chan: &str, prov: &str)
        ensures
            final(self)@ == task_add(old(self)@, chan@, prov@),
    {
        let ghost s0 = self@;
        match self.find_key(chan) {
            Some(j) => {
                let pair = self.entries.remove(j);
                let key = pair.0;
                let mut names = pair.1;
                let ghost mid = self@;
                if !vec_contains_str(&names, prov) {
                    names.push(String::from_str(prov));
                }
                proof {
                    assert(names@.map_values(|t: String| t@) =~= spec_add_name(
                        s0[j as int].1,
                        prov@,
                    ));
                }
                self.entries.insert(j, (key, names));
                proof {
                    lemma_task_add_found(s0, chan@, prov@, j as int);
                    assert(self@ =~= s0.update(j as int, (chan@, spec_add_name(
                        s0[j as int].1,
                        prov@,
                    ))));
                }
            },
            None => {
                let mut names: Vec<String> = Vec::new();
                names.push(String::from_str(prov));
                let ghost nv = names@.map_values(|t: String| t@);
                proof {
                    assert(nv =~= seq![prov@]);
                }
                self.entries.push((String::from_str(chan), names));
                proof {
                    lemma_task_add_fresh(s0, chan@, prov@);
                    assert(self@ =~= s0.push((chan@, seq![prov@])));
                }
            },
        }
    }

    /// Removes a channel's entry, handing its providers back.
    pub fn remove(&mut self, name: &str) -> (r: Option<Vec<String>>)
        ensures
            match r {
                Some(v) => task_get(old(self)@, name@) == Some(v@.map_values(|t: String| t@))
                    && final(self)@ == task_remove(old(self)@, name@),
                None => task_get(old(self)@, name@) is None && final(self)@ == old(self)@,
            },
    {
        let ghost s0 = self@;
        match self.find_key(name) {
            Some(j) => {
                let pair = self.entries.remove(j);
                proof {
                    lemma_task_remove_found(s0, name@, j as int);
                    assert(self@ =~= s0.remove(j as int));
                }
                Some(pair.1)
            },
            None => {
                proof {
                    lemma_task_get_fresh(s0, name@);
                }
                None
            },
        }
    }

    /// Appends an entry under a fresh key.
    pub fn put(&mut self, name: String, provs: Vec<String>)
        ensures
            final(self)@ == old(self)@.push((name@, provs@.map_values(|t: String| t@))),
    {
        self.entries.push((name, provs));
        proof {
            assert(self@ =~= old(self)@.push((name@, provs@.map_values(|t: String| t@))));
        }
    }
}

/// Whether a provider declares a channel of this name.
pub open spec fn spec_declares(p: EvtProvider, c: Seq<char>) -> bool {
    exists|k: int| 0 <= k < p@.channels.len() && (#[trigger] p@.channels[k]).1.name == c
}

/// One provider's declared channels added to the partition, in table order.
pub open spec fn spec_add_channels(
    t: Seq<(Seq<char>, Seq<Seq<char>>)>,
    chans: Seq<(u64, crate::tables::ChannelEntryView)>,
    pname: Seq<char>,
) -> Seq<(Seq<char>, Seq<Seq<char>>)>
    decreases chans.len(),
{
    if chans.len() == 0 {
        t
    } else {
        task_add(spec_add_channels(t, chans.drop_last(), pname), chans.last().1.name, pname)
    }
}

/// Whether an earlier provider carries the same name: the identity rule
/// deduplicates, first occurrence wins.
pub open spec fn spec_dup_name(ps: Seq<EvtProvider>, i: int) -> bool {
    exists|j: int| 0 <= j < i && (#[trigger] ps[j])@.name == ps[i]@.name
}

/// The unfiltered partition: every provider's declared channels, providers
/// deduplicated by name.
pub open spec fn spec_divvy(ps: Seq<EvtProvider>) -> Seq<(Seq<char>, Seq<Seq<char>>)>
    decreases ps.len(),
{
    if ps.len() == 0 {
        Seq::empty()
    } else {
        let prev = spec_divvy(ps.drop_last());
        if spec_dup_name(ps, ps.len() - 1) {
            prev
        } else {
            spec_add_channels(prev, ps.last()@.channels, ps.last()@.name)
        }
    }
}

/// Whether a channel's entry lists a provider name.
pub open spec fn name_in(t: Seq<(Seq<char>, Seq<Seq<char>>)>, c: Seq<char>, q: Seq<char>) -> bool {
    match task_get(t, c) {
        Some(v) => v.contains(q),
        None => false,
    }
}

proof fn lemma_add_name_contains(ns: Seq<Seq<char>>, p: Seq<char>, q: Seq<char>)
    ensures
        spec_add_name(ns, p).contains(q) <==> (ns.contains(q) || q == p),
{
    if ns.contains(p) {
    } else {
        if ns.push(p).contains(q) {
            let w = choose|w: int| 0 <= w < ns.push(p).len() && ns.push(p)[w] == q;
            if w < ns.len() {
                assert(ns[w] == q);
            }
        }
        if ns.contains(q) {
            let w = choose|w: int| 0 <= w < ns.len() && ns[w] == q;
            assert(ns.push(p)[w] == q);
        }
        if q == p {
            assert(ns.push(p)[ns.len() as int] == q);
        }
    }
}

proof fn lemma_task_add_get(
    t: Seq<(Seq<char>, Seq<Seq<char>>)>,
    ch: Seq<char>,
    p: Seq<char>,
    c: Seq<char>,
)
    ensures
        task_get(task_add(t, ch, p), c) == (if c == ch {
            Some(
                match task_get(t, c) {
                    Some(v) => spec_add_name(v, p),
                    None => seq![p],
                },
            )
        } else {
            task_get(t, c)
        }),
    decreases t.len(),
{
    if t.len() == 0 {
        let r = task_add(t, ch, p);
        assert(r[0] == (ch, seq![p]));
        assert(r.drop_first() =~= Seq::<(Seq<char>, Seq<Seq<char>>)>::empty());
        assert(task_get(Seq::<(Seq<char>, Seq<Seq<char>>)>::empty(), c) is None);
    } else if t[0].0 == ch {
        let r = task_add(t, ch, p);
        assert(r[0] == (t[0].0, spec_add_name(t[0].1, p)));
        assert(r.drop_first() =~= t.drop_first());
    } else {
        lemma_task_add_get(t.drop_first(), ch, p, c);
        let r = task_add(t, ch, p);
        assert(r[0] == t[0]);
        assert(r.drop_first() =~= task_add(t.drop_first(), ch, p));
    }
}

proof fn lemma_add_channels_get(
    t: Seq<(Seq<char>, Seq<Seq<char>>)>,
    chans: Seq<(u64, crate::tables::ChannelEntryView)>,
    pn: Seq<char>,
    c: Seq<char>,
    q: Seq<char>,
)
    ensures
        (task_get(spec_add_channels(t, chans, pn), c) is Some) <==> (task_get(t, c) is Some
            || exists|k: int| 0 <= k < chans.len() && (#[trigger] chans[k]).1.name == c),
        name_in(spec_add_channels(t, chans, pn), c, q) <==> (name_in(t, c, q) || (q == pn
            && exists|k: int| 0 <= k < chans.len() && (#[trigger] chans[k]).1.name == c)),
    decreases chans.len(),
{
    if chans.len() == 0 {
    } else {
        let d = chans.drop_last();
        let prev = spec_add_channels(t, d, pn);
        lemma_add_channels_get(t, d, pn, c, q);
        lemma_task_add_get(prev, chans.last().1.name, pn, c);
        if exists|k: int| 0 <= k < d.len() && (#[trigger] d[k]).1.name == c {
            let w = choose|w: int| 0 <= w < d.len() && (#[trigger] d[w]).1.name == c;
            assert(chans[w] == d[w]);
            assert(exists|k: int| 0 <= k < chans.len() && (#[trigger] chans[k]).1.name == c);
        }
        if c == chans.last().1.name {
            match task_get(prev, c) {
                Some(v) => {
                    lemma_add_name_contains(v, pn, q);
                },
                None => {
                    if q == pn {
                        assert(seq![pn][0] == q);
                        assert(seq![pn].contains(q));
                    } else {
                        if seq![pn].contains(q) {
                            let w = choose|w: int| 0 <= w < 1 && seq![pn][w] == q;
                            assert(seq![pn][0] == pn);
                        }
                    }
                },
            }
            assert(chans[chans.len() - 1].1.name == c);
            assert(exists|k: int| 0 <= k < chans.len() && (#[trigger] chans[k]).1.name == c);
        } else {
            if exists|k: int| 0 <= k < chans.len() && (#[trigger] chans[k]).1.name == c {
                let w = choose|w: int| 0 <= w < chans.len() && (#[trigger] chans[w]).1.name == c;
                assert(chans.last().1.name != c);
                assert(w < chans.len() - 1);
                assert(d[w] == chans[w]);
                assert(exists|k: int| 0 <= k < d.len() && (#[trigger] d[k]).1.name == c);
            }
        }
    }
}

/// Whether a provider is the one that establishes its name's entries: the
/// first of its name, declaring the channel (and, where asked, carrying the
/// given name).
pub open spec fn spec_first_declarer(ps: Seq<EvtProvider>, c: Seq<char>, i: int) -> bool {
    0 <= i < ps.len() && !spec_dup_name(ps, i) && spec_declares(ps[i], c)
}

proof fn lemma_dup_name_prefix(ps: Seq<EvtProvider>, i: int)
    requires
        0 <= i < ps.len() - 1,
    ensures
        spec_dup_name(ps.drop_last(), i) == spec_dup_name(ps, i),
{
    let t = ps.drop_last();
    if spec_dup_name(t, i) {
        let w = choose|w: int| 0 <= w < i && (#[trigger] t[w])@.name == t[i]@.name;
        assert(ps[w] == t[w] && ps[i] == t[i]);
        assert(spec_dup_name(ps, i));
    }
    if spec_dup_name(ps, i) {
        let w = choose|w: int| 0 <= w < i && (#[trigger] ps[w])@.name == ps[i]@.name;
        assert(t[w] == ps[w] && t[i] == ps[i]);
        assert(spec_dup_name(t, i));
    }
}

proof fn lemma_first_declarer_prefix(ps: Seq<EvtProvider>, c: Seq<char>, q: Seq<char>)
    requires
        ps.len() > 0,
    ensures
        (exists|i: int| spec_first_declarer(ps.drop_last(), c, i)) <==> (exists|i: int|
            i < ps.len() - 1 && #[trigger] spec_first_declarer(ps, c, i)),
        (exists|i: int|
            #[trigger] spec_first_declarer(ps.drop_last(), c, i) && ps.drop_last()[i]@.name == q)
            <==> (exists|i: int|
            i < ps.len() - 1 && #[trigger] spec_first_declarer(ps, c, i) && ps[i]@.name == q),
{
    let t = ps.drop_last();
    if exists|i: int| spec_first_declarer(t, c, i) {
        let w = choose|w: int| #[trigger] spec_first_declarer(t, c, w);
        lemma_dup_name_prefix(ps, w);
        assert(ps[w] == t[w]);
        assert(spec_first_declarer(ps, c, w));
    }
    if exists|i: int| i < ps.len() - 1 && #[trigger] spec_first_declarer(ps, c, i) {
        let w = choose|w: int| w < ps.len() - 1 && #[trigger] spec_first_declarer(ps, c, w);
        lemma_dup_name_prefix(ps, w);
        assert(t[w] == ps[w]);
        assert(spec_first_declarer(t, c, w));
    }
    if exists|i: int| #[trigger] spec_first_declarer(t, c, i) && t[i]@.name == q {
        let w = choose|w: int| #[trigger] spec_first_declarer(t, c, w) && t[w]@.name == q;
        lemma_dup_name_prefix(ps, w);
        assert(ps[w] == t[w]);
        assert(spec_first_declarer(ps, c, w) && ps[w]@.name == q);
    }
    if exists|i: int|
        i < ps.len() - 1 && #[trigger] spec_first_declarer(ps, c, i) && ps[i]@.name == q {
        let w = choose|w: int|
            w < ps.len() - 1 && #[trigger] spec_first_declarer(ps, c, w) && ps[w]@.name == q;
        lemma_dup_name_prefix(ps, w);
        assert(t[w] == ps[w]);
        assert(spec_first_declarer(t, c, w) && t[w]@.name == q);
    }
}

/// Task partitioning: the partition holds an entry for a channel exactly
/// when some provider that is the first of its name declares it, and that
/// entry lists exactly the names of such first-of-their-name providers
/// declaring it.  A later provider of an already-seen name is the same
/// entity under the identity rule and contributes nothing.
pub proof fn lemma_divvy_partition(ps: Seq<EvtProvider>, c: Seq<char>, q: Seq<char>)
    ensures
        (task_get(spec_divvy(ps), c) is Some) <==> (exists|i: int|
            #[trigger] spec_first_declarer(ps, c, i)),
        name_in(spec_divvy(ps), c, q) <==> (exists|i: int|
            #[trigger] spec_first_declarer(ps, c, i) && ps[i]@.name == q),
    decreases ps.len(),
{
    if ps.len() == 0 {
    } else {
        let t = ps.drop_last();
        lemma_divvy_partition(t, c, q);
        lemma_first_declarer_prefix(ps, c, q);
        let last = ps.last();
        let n = ps.len() - 1;
        if spec_dup_name(ps, n) {
            assert(spec_divvy(ps) == spec_divvy(t));
            assert(!spec_first_declarer(ps, c, n));
            assert forall|i: int| #[trigger] spec_first_declarer(ps, c, i) implies i < n by {}
        } else {
            lemma_add_channels_get(spec_divvy(t), last@.channels, last@.name, c, q);
            assert(spec_divvy(ps) == spec_add_channels(
                spec_divvy(t),
                last@.channels,
                last@.name,
            ));
            if exists|k: int|
                0 <= k < last@.channels.len() && (#[trigger] last@.channels[k]).1.name == c {
                assert(spec_declares(ps[n], c));
                assert(spec_first_declarer(ps, c, n));
            }
            if spec_declares(ps[n], c) {
                let k = choose|k: int|
                    0 <= k < ps[n]@.channels.len() && (#[trigger] ps[n]@.channels[k]).1.name == c;
                assert(last@.channels[k].1.name == c);
                assert(exists|k: int|
                    0 <= k < last@.channels.len() && (#[trigger] last@.channels[k]).1.name == c);
            }
            if exists|i: int| #[trigger] spec_first_declarer(ps, c, i) {
                let w = choose|w: int| #[trigger] spec_first_declarer(ps, c, w);
                if w < n {
                    assert(exists|i: int|
                        i < ps.len() - 1 && #[trigger] spec_first_declarer(ps, c, i));
                } else {
                    assert(spec_declares(ps[n], c));
                }
            }
            if exists|i: int| #[trigger] spec_first_declarer(ps, c, i) && ps[i]@.name == q {
                let w = choose|w: int|
                    #[trigger] spec_first_declarer(ps, c, w) && ps[w]@.name == q;
                if w < n {
                    assert(exists|i: int|
                        i < ps.len() - 1 && #[trigger] spec_first_declarer(ps, c, i)
                            && ps[i]@.name == q);
                } else {
                    assert(spec_declares(ps[n], c) && ps[n]@.name == q);
                }
            }
        }
    }
}

/// The same partition law over providers of pairwise-distinct names, where
/// every provider is the first of its name: an entry exists for a channel
/// exactly when some provider declares it, listing exactly the names of
/// the declaring providers.
pub proof fn lemma_divvy_partition_distinct(ps: Seq<EvtProvider>, c: Seq<char>, q: Seq<char>)
    requires
        forall|i: int, j: int|
            0 <= i < j < ps.len() ==> (#[trigger] ps[i])@.name != (#[trigger] ps[j])@.name,
    ensures
        (task_get(spec_divvy(ps), c) is Some) <==> (exists|i: int|
            0 <= i < ps.len() && spec_declares(#[trigger] ps[i], c)),
        name_in(spec_divvy(ps), c, q) <==> (exists|i: int|
            0 <= i < ps.len() && (#[trigger] ps[i])@.name == q && spec_declares(ps[i], c)),
{
    lemma_divvy_partition(ps, c, q);
    assert forall|i: int| 0 <= i < ps.len() implies !spec_dup_name(ps, i) by {
        if spec_dup_name(ps, i) {
            let w = choose|w: int| 0 <= w < i && (#[trigger] ps[w])@.name == ps[i]@.name;
            assert(ps[w]@.name != ps[i]@.name);
        }
    }
    if exists|i: int| 0 <= i < ps.len() && spec_declares(#[trigger] ps[i], c) {
        let w = choose|w: int| 0 <= w < ps.len() && spec_declares(#[trigger] ps[w], c);
        assert(spec_first_declarer(ps, c, w));
    }
    if exists|i: int| #[trigger] spec_first_declarer(ps, c, i) {
        let w = choose|w: int| #[trigger] spec_first_declarer(ps, c, w);
        assert(spec_declares(ps[w], c));
    }
    if exists|i: int|
        0 <= i < ps.len() && (#[trigger] ps[i])@.name == q && spec_declares(ps[i], c) {
        let w = choose|w: int|
            0 <= w < ps.len() && (#[trigger] ps[w])@.name == q && spec_declares(ps[w], c);
        assert(spec_first_declarer(ps, c, w) && ps[w]@.name == q);
    }
    if exists|i: int| #[trigger] spec_first_declarer(ps, c, i) && ps[i]@.name == q {
        let w = choose|w: int| #[trigger] spec_first_declarer(ps, c, w) && ps[w]@.name == q;
        assert(ps[w]@.name == q && spec_declares(ps[w], c));
    }
}

/// The partition narrowed to explicitly named channels, in their order: each
/// named source whose key matches a partition entry takes that entry over,
/// under the source's own name; a key can be taken only once, and unmatched
/// sources are dropped.
pub open spec fn spec_select(t0: Seq<(Seq<char>, Seq<Seq<char>>)>, args: Seq<String>) -> (
    Seq<(Seq<char>, Seq<Seq<char>>)>,
    Seq<(Seq<char>, Seq<Seq<char>>)>,
)
    decreases args.len(),
{
    if args.len() == 0 {
        (t0, Seq::empty())
    } else {
        let p = spec_select(t0, args.drop_last());
        let k = spec_file_key(args.last()@);
        match task_get(p.0, k) {
            Some(v) => (task_remove(p.0, k), p.1.push((args.last()@, v))),
            None => p,
        }
    }
}

/// The final task partition, with or without an explicit channel filter.
pub open spec fn spec_divvy_tasks(ps: Seq<EvtProvider>, args: Seq<String>) -> Seq<
    (Seq<char>, Seq<Seq<char>>),
> {
    if args.len() == 0 {
        spec_divvy(ps)
    } else {
        spec_select(spec_divvy(ps), args).1
    }
}

/// Computes the task partition: one entry per declared channel, carrying the
/// names of the providers that declare it, providers deduplicated by their
/// name identity.  With explicitly named channels (archived log sources) the
/// partition is narrowed to the matching entries, each keyed by its source.
pub fn divvy_tasks_from_providers(
    providers: &Vec<EvtProvider>,
    channels_from_args: &Vec<String>,
) -> (t: TaskMap)
    ensures
        t@ == spec_divvy_tasks(providers@, channels_from_args@),
{
    let np = providers.len();
    let mut t = TaskMap::new();
    let mut i: usize = 0;
    proof {
        assert(providers@.take(0) =~= Seq::<EvtProvider>::empty());
    }
    while i < np
        invariant
            i <= np,
            np == providers@.len(),
            t@ == spec_divvy(providers@.take(i as int)),
        decreases np - i,
    {
        proof {
            assert(providers@.take(i + 1).drop_last() =~= providers@.take(i as int));
            assert(providers@.take(i + 1).last() == providers@[i as int]);
        }
        let mut dup = false;
        let mut j: usize = 0;
        while j < i
            invariant
                j <= i,
                i < np,
                np == providers@.len(),
                dup ==> spec_dup_name(providers@.take(i + 1), i as int),
                !dup ==> forall|k: int|
                    0 <= k < j ==> (#[trigger] providers@[k])@.name != providers@[i as int]@.name,
            decreases i - j,
        {
            if str_eq(providers[j].get_name(), providers[i].get_name()) {
                proof {
                    assert(providers@.take(i + 1)[j as int] == providers@[j as int]);
                }
                dup = true;
            }
            j = j + 1;
        }
        if !dup {
            proof {
                if spec_dup_name(providers@.take(i + 1), i as int) {
                    let w = choose|w: int|
                        0 <= w < i && (#[trigger] providers@.take(i + 1)[w])@.name
                            == providers@.take(i + 1)[i as int]@.name;
                    assert(providers@[w]@.name == providers@[i as int]@.name);
                }
            }
            let p = &providers[i];
            let chans = p.get_channels();
            let nc = chans.len();
            let ghost t0 = t@;
            let ghost cv = p@.channels;
            let mut c: usize = 0;
            proof {
                assert(cv.take(0) =~= Seq::<(u64, crate::tables::ChannelEntryView)>::empty());
            }
            while c < nc
                invariant
                    c <= nc,
                    nc == cv.len(),
                    cv == providers@[i as int]@.channels,
                    chans@ == cv,
                    p@ == providers@[i as int]@,
                    i < np,
                    np == providers@.len(),
                    t@ == spec_add_channels(t0, cv.take(c as int), providers@[i as int]@.name),
                decreases nc - c,
            {
                proof {
                    assert(cv.take(c + 1).drop_last() =~= cv.take(c as int));
                    assert(cv.take(c + 1).last() == cv[c as int]);
                }
                let entry = chans.entry_at(c);
                t.add(entry.name.as_str(), p.get_name());
                c = c + 1;
            }
            proof {
                assert(cv.take(nc as int) =~= cv);
            }
        }
        i = i + 1;
    }
    proof {
        assert(providers@.take(np as int) =~= providers@);
    }
    if channels_from_args.len() == 0 {
        return t;
    }
    let ghost t0 = t@;
    let na = channels_from_args.len();
    let mut used = TaskMap::new();
    let mut a: usize = 0;
    proof {
        assert(channels_from_args@.take(0) =~= Seq::<String>::empty());
    }
    while a < na
        invariant
            a <= na,
            na == channels_from_args@.len(),
            (t@, used@) == spec_select(t0, channels_from_args@.take(a as int)),
        decreases na - a,
    {
        proof {
            assert(channels_from_args@.take(a + 1).drop_last() =~= channels_from_args@.take(
                a as int,
            ));
            assert(channels_from_args@.take(a + 1).last() == channels_from_args@[a as int]);
        }
        let arg = &channels_from_args[a];
        let key = file_key_of(arg.as_str());
        match t.remove(key.as_str()) {
            Some(provs) => {
                used.put(arg.clone(), provs);
            },
            None => {},
        }
        a = a + 1;
    }
    proof {
        assert(channels_from_args@.take(na as int) =~= channels_from_args@);
    }
    used
}

/// A record's sort key.
pub open spec fn spec_time_key(e: EvtEvent) -> Seq<char> {
    e@.time_written
}

/// Ordered by timestamp, front to back.
pub open spec fn sorted_by_time(s: Seq<EvtEvent>) -> bool {
    forall|i: int, j: int|
        0 <= i < j < s.len() ==> lex_leq(spec_time_key(#[trigger] s[i]), spec_time_key(
            #[trigger] s[j],
        ))
}

/// Insertion of one record behind every record whose key does not exceed
/// its own: the position a stable sort gives a later arrival.
pub open spec fn spec_stable_insert(s: Seq<EvtEvent>, x: EvtEvent) -> Seq<EvtEvent>
    decreases s.len(),
{
    if s.len() == 0 {
        seq![x]
    } else if lex_leq(spec_time_key(s[0]), spec_time_key(x)) {
        seq![s[0]] + spec_stable_insert(s.drop_first(), x)
    } else {
        seq![x] + s
    }
}

/// The stable sort of the records by timestamp: each record inserted, in
/// arrival order, behind all records with keys up to its own.
pub open spec fn spec_sort_events(s: Seq<EvtEvent>) -> Seq<EvtEvent>
    decreases s.len(),
{
    if s.len() == 0 {
        Seq::empty()
    } else {
        spec_stable_insert(spec_sort_events(s.drop_last()), s.last())
    }
}

proof fn lemma_stable_insert_len(s: Seq<EvtEvent>, x: EvtEvent)
    ensures
        spec_stable_insert(s, x).len() == s.len() + 1,
    decreases s.len(),
{
    if s.len() > 0 && lex_leq(spec_time_key(s[0]), spec_time_key(x)) {
        lemma_stable_insert_len(s.drop_first(), x);
    }
}

/// Sorting keeps the number of records.
pub proof fn lemma_sort_events_len(s: Seq<EvtEvent>)
    ensures
        spec_sort_events(s).len() == s.len(),
    decreases s.len(),
{
    if s.len() > 0 {
        lemma_sort_events_len(s.drop_last());
        lemma_stable_insert_len(spec_sort_events(s.drop_last()), s.last());
    }
}

proof fn lemma_stable_insert_sorted(s: Seq<EvtEvent>, x: EvtEvent)
    requires
        sorted_by_time(s),
    ensures
        sorted_by_time(spec_stable_insert(s, x)),
        spec_stable_insert(s, x).to_multiset() == s.to_multiset().insert(x),
    decreases s.len(),
{
    broadcast use vstd::seq_lib::group_to_multiset_ensures;

    if s.len() == 0 {
        let r = spec_stable_insert(s, x);
        assert(r =~= Seq::<EvtEvent>::empty().push(x));
        assert(r.to_multiset() =~= s.to_multiset().insert(x));
    } else if lex_leq(spec_time_key(s[0]), spec_time_key(x)) {
        let t = s.drop_first();
        assert(sorted_by_time(t)) by {
            assert forall|i: int, j: int| 0 <= i < j < t.len() implies lex_leq(
                spec_time_key(#[trigger] t[i]),
                spec_time_key(#[trigger] t[j]),
            ) by {
                assert(t[i] == s[i + 1] && t[j] == s[j + 1]);
            }
        }
        lemma_stable_insert_sorted(t, x);
        let u = spec_stable_insert(t, x);
        let r = spec_stable_insert(s, x);
        assert(r == seq![s[0]] + u);
        lemma_stable_insert_len(t, x);
        assert forall|i: int, j: int| 0 <= i < j < r.len() implies lex_leq(
            spec_time_key(#[trigger] r[i]),
            spec_time_key(#[trigger] r[j]),
        ) by {
            if i == 0 {
                assert(r[j] == u[j - 1]);
                lemma_insert_members(t, x, j - 1);
                if u[j - 1] == x {
                    assert(lex_leq(spec_time_key(s[0]), spec_time_key(x)));
                } else {
                    let w = choose|w: int| 0 <= w < t.len() && t[w] == u[j - 1];
                    assert(t[w] == s[w + 1]);
                    assert(lex_leq(spec_time_key(s[0]), spec_time_key(s[w + 1])));
                }
            } else {
                assert(r[i] == u[i - 1] && r[j] == u[j - 1]);
            }
        }
        assert(r.remove(0) =~= u);
        assert(r[0] == s[0]);
        assert(s.remove(0) =~= t);
        lemma_cons_multiset(s[0], u);
        lemma_cons_multiset(s[0], t);
        assert(r.to_multiset() =~= s.to_multiset().insert(x)) by {
            assert(r.to_multiset() =~= u.to_multiset().insert(s[0]));
            assert(u.to_multiset() =~= t.to_multiset().insert(x));
            assert(s.to_multiset() =~= t.to_multiset().insert(s[0]));
        }
    } else {
        let r = spec_stable_insert(s, x);
        assert(r == seq![x] + s);
        lemma_lex_total(spec_time_key(s[0]), spec_time_key(x));
        assert forall|i: int, j: int| 0 <= i < j < r.len() implies lex_leq(
            spec_time_key(#[trigger] r[i]),
            spec_time_key(#[trigger] r[j]),
        ) by {
            if i == 0 {
                assert(r[j] == s[j - 1]);
                if j - 1 == 0 {
                    assert(lex_leq(spec_time_key(x), spec_time_key(s[0])));
                } else {
                    lemma_lex_trans(
                        spec_time_key(x),
                        spec_time_key(s[0]),
                        spec_time_key(s[j - 1]),
                    );
                }
            } else {
                assert(r[i] == s[i - 1] && r[j] == s[j - 1]);
            }
        }
        lemma_cons_multiset(x, s);
    }
}

/// Every member of an insertion's result is the inserted record or a member
/// of the original.
proof fn lemma_insert_members(s: Seq<EvtEvent>, x: EvtEvent, i: int)
    requires
        0 <= i < spec_stable_insert(s, x).len(),
    ensures
        spec_stable_insert(s, x)[i] == x || exists|w: int|
            0 <= w < s.len() && s[w] == spec_stable_insert(s, x)[i],
    decreases s.len(),
{
    lemma_stable_insert_len(s, x);
    if s.len() == 0 {
    } else if lex_leq(spec_time_key(s[0]), spec_time_key(x)) {
        let u = spec_stable_insert(s.drop_first(), x);
        if i == 0 {
            assert(s[0] == spec_stable_insert(s, x)[0]);
        } else {
            lemma_insert_members(s.drop_first(), x, i - 1);
            assert(spec_stable_insert(s, x)[i] == u[i - 1]);
            if u[i - 1] != x {
                let w = choose|w: int| 0 <= w < s.drop_first().len() && s.drop_first()[w] == u[i
                    - 1];
                assert(s[w + 1] == u[i - 1]);
            }
        }
    } else {
        if i > 0 {
            assert(spec_stable_insert(s, x)[i] == s[i - 1]);
        }
    }
}

proof fn lemma_cons_multiset(a: EvtEvent, u: Seq<EvtEvent>)
    ensures
        (seq![a] + u).to_multiset() == u.to_multiset().insert(a),
    decreases u.len(),
{
    broadcast use vstd::seq_lib::group_to_multiset_ensures;

    if u.len() == 0 {
        assert(seq![a] + u =~= Seq::<EvtEvent>::empty().push(a));
        assert((seq![a] + u).to_multiset() =~= u.to_multiset().insert(a));
    } else {
        let v = u.drop_last();
        lemma_cons_multiset(a, v);
        assert(seq![a] + u =~= (seq![a] + v).push(u.last()));
        assert(u =~= v.push(u.last()));
        assert((seq![a] + u).to_multiset() =~= ((seq![a] + v).to_multiset().insert(u.last())));
        assert(u.to_multiset() =~= v.to_multiset().insert(u.last()));
        assert(((v.to_multiset().insert(a)).insert(u.last())) =~= ((v.to_multiset().insert(
            u.last(),
        )).insert(a)));
        assert((seq![a] + u).to_multiset() =~= u.to_multiset().insert(a));
    }
}

/// The sorted records are ordered by timestamp and are a permutation of the
/// collected records.
pub proof fn lemma_sort_events_sorted(s: Seq<EvtEvent>)
    ensures
        sorted_by_time(spec_sort_events(s)),
        spec_sort_events(s).to_multiset() == s.to_multiset(),
    decreases s.len(),
{
    broadcast use vstd::seq_lib::group_to_multiset_ensures;

    if s.len() == 0 {
    } else {
        lemma_sort_events_sorted(s.drop_last());
        lemma_stable_insert_sorted(spec_sort_events(s.drop_last()), s.last());
        assert(s =~= s.drop_last().push(s.last()));
        assert(s.to_multiset() =~= s.drop_last().to_multiset().insert(s.last()));
    }
}

/// The records carrying one given timestamp, in order.
pub open spec fn spec_with_key(s: Seq<EvtEvent>, k: Seq<char>) -> Seq<EvtEvent>
    decreases s.len(),
{
    if s.len() == 0 {
        Seq::empty()
    } else if spec_time_key(s[0]) == k {
        seq![s[0]] + spec_with_key(s.drop_first(), k)
    } else {
        spec_with_key(s.drop_first(), k)
    }
}

proof fn lemma_with_key_push(s: Seq<EvtEvent>, x: EvtEvent, k: Seq<char>)
    ensures
        spec_with_key(s.push(x), k) == spec_with_key(s, k) + (if spec_time_key(x) == k {
            seq![x]
        } else {
            Seq::<EvtEvent>::empty()
        }),
    decreases s.len(),
{
    if s.len() == 0 {
        assert(s.push(x).drop_first() =~= Seq::<EvtEvent>::empty());
        assert(s.push(x)[0] == x);
        assert(spec_with_key(Seq::<EvtEvent>::empty(), k) == Seq::<EvtEvent>::empty());
        if spec_time_key(x) == k {
            assert(spec_with_key(s.push(x), k) == seq![x] + spec_with_key(
                Seq::<EvtEvent>::empty(),
                k,
            ));
            assert(spec_with_key(s.push(x), k) =~= spec_with_key(s, k) + seq![x]);
        } else {
            assert(spec_with_key(s.push(x), k) == spec_with_key(Seq::<EvtEvent>::empty(), k));
            assert(spec_with_key(s.push(x), k) =~= spec_with_key(s, k)
                + Seq::<EvtEvent>::empty());
        }
    } else {
        assert(s.push(x).drop_first() =~= s.drop_first().push(x));
        assert(s.push(x)[0] == s[0]);
        lemma_with_key_push(s.drop_first(), x, k);
        let extra = if spec_time_key(x) == k {
            seq![x]
        } else {
            Seq::<EvtEvent>::empty()
        };
        if spec_time_key(s[0]) == k {
            assert(spec_with_key(s.push(x), k) == seq![s[0]] + spec_with_key(
                s.drop_first().push(x),
                k,
            ));
            assert(spec_with_key(s, k) == seq![s[0]] + spec_with_key(s.drop_first(), k));
            assert(seq![s[0]] + (spec_with_key(s.drop_first(), k) + extra) =~= (seq![s[0]]
                + spec_with_key(s.drop_first(), k)) + extra);
        } else {
            assert(spec_with_key(s.push(x), k) == spec_with_key(s.drop_first().push(x), k));
            assert(spec_with_key(s, k) == spec_with_key(s.drop_first(), k));
        }
        assert(spec_with_key(s.push(x), k) =~= spec_with_key(s, k) + extra);
    }
}

proof fn lemma_with_key_absent(s: Seq<EvtEvent>, k: Seq<char>)
    requires
        forall|i: int| 0 <= i < s.len() ==> spec_time_key(#[trigger] s[i]) != k,
    ensures
        spec_with_key(s, k) == Seq::<EvtEvent>::empty(),
    decreases s.len(),
{
    if s.len() > 0 {
        assert forall|i: int| 0 <= i < s.drop_first().len() implies spec_time_key(
            #[trigger] s.drop_first()[i],
        ) != k by {
            assert(s.drop_first()[i] == s[i + 1]);
        }
        lemma_with_key_absent(s.drop_first(), k);
        assert(spec_with_key(s, k) =~= Seq::<EvtEvent>::empty());
    } else {
        assert(spec_with_key(s, k) =~= Seq::<EvtEvent>::empty());
    }
}

proof fn lemma_with_key_insert(s: Seq<EvtEvent>, x: EvtEvent, k: Seq<char>)
    requires
        sorted_by_time(s),
    ensures
        spec_with_key(spec_stable_insert(s, x), k) == spec_with_key(s, k) + (if spec_time_key(x)
            == k {
            seq![x]
        } else {
            Seq::<EvtEvent>::empty()
        }),
    decreases s.len(),
{
    if s.len() == 0 {
        assert(spec_stable_insert(s, x) =~= Seq::<EvtEvent>::empty().push(x));
        lemma_with_key_push(Seq::<EvtEvent>::empty(), x, k);
    } else if lex_leq(spec_time_key(s[0]), spec_time_key(x)) {
        let t = s.drop_first();
        assert(sorted_by_time(t)) by {
            assert forall|i: int, j: int| 0 <= i < j < t.len() implies lex_leq(
                spec_time_key(#[trigger] t[i]),
                spec_time_key(#[trigger] t[j]),
            ) by {
                assert(t[i] == s[i + 1] && t[j] == s[j + 1]);
            }
        }
        lemma_with_key_insert(t, x, k);
        let r = spec_stable_insert(s, x);
        assert(r == seq![s[0]] + spec_stable_insert(t, x));
        assert(r[0] == s[0]);
        assert(r.drop_first() =~= spec_stable_insert(t, x));
        if spec_time_key(s[0]) == k {
            assert(spec_with_key(r, k) =~= spec_with_key(s, k) + (if spec_time_key(x) == k {
                seq![x]
            } else {
                Seq::<EvtEvent>::empty()
            }));
        } else {
            assert(spec_with_key(r, k) =~= spec_with_key(s, k) + (if spec_time_key(x) == k {
                seq![x]
            } else {
                Seq::<EvtEvent>::empty()
            }));
        }
    } else {
        let r = spec_stable_insert(s, x);
        assert(r == seq![x] + s);
        assert(r[0] == x);
        assert(r.drop_first() =~= s);
        if spec_time_key(x) == k {
            lemma_lex_total(spec_time_key(s[0]), spec_time_key(x));
            assert forall|i: int| 0 <= i < s.len() implies spec_time_key(#[trigger] s[i])
                != k by {
                if spec_time_key(s[i]) == k {
                    if i == 0 {
                        assert(lex_leq(spec_time_key(s[0]), spec_time_key(x)));
                    } else {
                        lemma_lex_trans(
                            spec_time_key(s[0]),
                            spec_time_key(s[i]),
                            spec_time_key(x),
                        );
                    }
                }
            }
            lemma_with_key_absent(s, k);
            assert(spec_with_key(r, k) =~= spec_with_key(s, k) + seq![x]);
        } else {
            assert(spec_with_key(r, k) =~= spec_with_key(s, k) + Seq::<EvtEvent>::empty());
        }
    }
}

/// Stability: for any timestamp, the records carrying it leave the sort in
/// exactly their arrival order.
pub proof fn lemma_sort_events_stable(s: Seq<EvtEvent>, k: Seq<char>)
    ensures
        spec_with_key(spec_sort_events(s), k) == spec_with_key(s, k),
    decreases s.len(),
{
    if s.len() > 0 {
        lemma_sort_events_stable(s.drop_last(), k);
        lemma_sort_events_sorted(s.drop_last());
        lemma_with_key_insert(spec_sort_events(s.drop_last()), s.last(), k);
        lemma_with_key_push(s.drop_last(), s.last(), k);
        assert(s.drop_last().push(s.last()) =~= s);
    }
}

proof fn lemma_stable_insert_at(s: Seq<EvtEvent>, x: EvtEvent, j: int)
    requires
        0 <= j <= s.len(),
        forall|k: int| 0 <= k < j ==> lex_leq(spec_time_key(#[trigger] s[k]), spec_time_key(x)),
        j < s.len() ==> !lex_leq(spec_time_key(s[j]), spec_time_key(x)),
    ensures
        spec_stable_insert(s, x) == s.insert(j, x),
    decreases s.len(),
{
    if s.len() == 0 {
        assert(spec_stable_insert(s, x) =~= s.insert(0, x));
    } else if j == 0 {
        assert(spec_stable_insert(s, x) =~= s.insert(0, x));
    } else {
        assert(lex_leq(spec_time_key(s[0]), spec_time_key(x)));
        assert forall|k: int| 0 <= k < j - 1 implies lex_leq(
            spec_time_key(#[trigger] s.drop_first()[k]),
            spec_time_key(x),
        ) by {
            assert(s.drop_first()[k] == s[k + 1]);
        }
        assert(j - 1 < s.drop_first().len() ==> s.drop_first()[j - 1] == s[j]);
        lemma_stable_insert_at(s.drop_first(), x, j - 1);
        assert(spec_stable_insert(s, x) =~= s.insert(j, x));
    }
}

/// The position a later arrival is inserted at: behind every record whose
/// key does not exceed its own.
fn insert_position(out: &Vec<EvtEvent>, x: &EvtEvent) -> (j: usize)
    ensures
        j <= out@.len(),
        forall|k: int| 0 <= k < j ==> lex_leq(spec_time_key(#[trigger] out@[k]), spec_time_key(*x)),
        j < out@.len() ==> !lex_leq(spec_time_key(out@[j as int]), spec_time_key(*x)),
{
    let tx = x.get_timestamp();
    let m = out.len();
    let mut j: usize = 0;
    while j < m
        invariant
            j <= m,
            m == out@.len(),
            tx@ == spec_time_key(*x),
            forall|k: int|
                0 <= k < j ==> lex_leq(spec_time_key(#[trigger] out@[k]), spec_time_key(*x)),
        decreases m - j,
    {
        let tj = out[j].get_timestamp();
        if !str_lex_leq(tj.as_str(), tx.as_str()) {
            return j;
        }
        j = j + 1;
    }
    m
}

/// Sorts the collected records by their creation timestamp, compared as
/// text: a stable sort, so records with one timestamp keep their arrival
/// order.  `lemma_sort_events_sorted` and `lemma_sort_events_stable` state
/// those two guarantees of the result.
pub fn sort_events_by_timestamp(events: Vec<EvtEvent>) -> (r: Vec<EvtEvent>)
    ensures
        r@ == spec_sort_events(events@),
{
    let ghost orig = events@;
    let mut events = events;
    let mut out: Vec<EvtEvent> = Vec::new();
    let mut i: usize = 0;
    let n = events.len();
    proof {
        assert(orig.take(0) =~= Seq::<EvtEvent>::empty());
    }
    while i < n
        invariant
            i <= n,
            n == orig.len(),
            events@ == orig.skip(i as int),
            out@ == spec_sort_events(orig.take(i as int)),
        decreases n - i,
    {
        let x = events.remove(0);
        proof {
            assert(orig.skip(i as int)[0] == orig[i as int]);
            assert(orig.skip(i as int).remove(0) =~= orig.skip(i + 1));
            assert(orig.take(i + 1).drop_last() =~= orig.take(i as int));
            assert(orig.take(i + 1).last() == orig[i as int]);
        }
        let j = insert_position(&out, &x);
        proof {
            lemma_stable_insert_at(out@, x, j as int);
        }
        out.insert(j, x);
        i = i + 1;
    }
    proof {
        assert(orig.take(n as int) =~= orig);
    }
    out
}

} // verus!
