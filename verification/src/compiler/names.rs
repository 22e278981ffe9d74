//! Name-keyed tables.
//!
//! The compiler keeps several dictionaries keyed by (lower-cased) word
//! names.  `NameMap` is an insertion log: `insert` appends, and a
//! lookup finds the most recent entry for a name, so the newest
//! definition wins — the ANS Forth rule.  Its model is a `Map` from
//! names to values.
use vstd::prelude::*;
use crate::text;

verus! {

/// The map described by an insertion log: later entries override
/// earlier ones.
pub open spec fn log_map<V>(s: Seq<(String, V)>) -> Map<Seq<char>, V>
    decreases s.len(),
{
    if s.len() == 0 {
        Map::empty()
    } else {
        log_map(s.drop_last()).insert(s.last().0@, s.last().1)
    }
}

/// Whether some entry of the log has key `k`.
pub open spec fn log_has<V>(s: Seq<(String, V)>, k: Seq<char>) -> bool {
    exists|j: int| 0 <= j < s.len() && (#[trigger] s[j]).0@ == k
}

/// Entries at or after `m` never mention `k`: the map at `k` is the
/// map of the first `m` entries at `k`.
pub proof fn lemma_log_suffix<V>(s: Seq<(String, V)>, m: int, k: Seq<char>)
    requires
        0 <= m <= s.len(),
        forall|j: int| m <= j < s.len() ==> (#[trigger] s[j]).0@ != k,
    ensures
        log_map(s).contains_key(k) == log_map(s.take(m)).contains_key(k),
        log_map(s).contains_key(k) ==> log_map(s)[k] == log_map(s.take(m))[k],
    decreases s.len(),
{
    if s.len() == m {
        assert(s.take(m) =~= s);
    } else {
        assert(s.drop_last().take(m) =~= s.take(m));
        lemma_log_suffix(s.drop_last(), m, k);
    }
}

/// A key is in the map exactly when some entry mentions it.
pub proof fn lemma_log_has<V>(s: Seq<(String, V)>, k: Seq<char>)
    ensures
        log_map(s).contains_key(k) == log_has(s, k),
    decreases s.len(),
{
    if s.len() > 0 {
        lemma_log_has(s.drop_last(), k);
        if log_has(s, k) && s.last().0@ != k {
            let j = choose|j: int| 0 <= j < s.len() && (#[trigger] s[j]).0@ == k;
            assert(s.drop_last()[j].0@ == k);
        }
        if log_has(s.drop_last(), k) {
            let j = choose|j: int| 0 <= j < s.drop_last().len() && (#[trigger] s.drop_last()[j]).0@ == k;
            assert(s[j].0@ == k);
        }
        if s.last().0@ == k {
            assert(s[s.len() - 1].0@ == k);
        }
    }
}

/// Replaying a log on top of a map overrides that map entry by entry.
pub open spec fn replay<V>(base: Map<Seq<char>, V>, s: Seq<(String, V)>) -> Map<Seq<char>, V>
    decreases s.len(),
{
    if s.len() == 0 {
        base
    } else {
        replay(base, s.drop_last()).insert(s.last().0@, s.last().1)
    }
}

/// Replaying a whole log on top of a map is the map's union with the
/// log's map, the log winning.
pub proof fn lemma_replay<V>(base: Map<Seq<char>, V>, s: Seq<(String, V)>)
    ensures
        replay(base, s) == base.union_prefer_right(log_map(s)),
    decreases s.len(),
{
    if s.len() == 0 {
        assert(base.union_prefer_right(Map::empty()) =~= base);
    } else {
        lemma_replay(base, s.drop_last());
        assert(replay(base, s) =~= base.union_prefer_right(log_map(s)));
    }
}

/// A string-keyed dictionary with newest-wins lookup.
#[derive(Debug, Clone)]
pub struct NameMap<V> {
    pub entries: Vec<(String, V)>,
}

impl<V> View for NameMap<V> {
    type V = Map<Seq<char>, V>;

    open spec fn view(&self) -> Map<Seq<char>, V> {
        log_map(self.entries@)
    }
}

impl<V> NameMap<V> {
    /// The empty dictionary.
    pub fn new() -> (m: NameMap<V>)
        ensures
            m@ == Map::<Seq<char>, V>::empty(),
            m.entries@.len() == 0,
    {
        NameMap { entries: Vec::new() }
    }

    /// Bind `k` to `v`, shadowing any earlier binding.
    pub fn insert(&mut self, k: String, v: V)
        ensures
            final(self)@ == old(self)@.insert(k@, v),
            final(self).entries@ == old(self).entries@.push((k, v)),
    {
        let ghost kv = k@;
        self.entries.push((k, v));
        proof {
            assert(self.entries@.drop_last() =~= old(self).entries@);
        }
    }

    /// Index of the newest entry for `k`, if any.
    pub fn find(&self, k: &str) -> (r: Option<usize>)
        ensures
            match r {
                Some(i) => {
                    &&& i < self.entries@.len()
                    &&& self.entries@[i as int].0@ == k@
                    &&& self@.contains_key(k@)
                    &&& self@[k@] == self.entries@[i as int].1
                },
                None => !self@.contains_key(k@),
            },
    {
        let mut i: usize = self.entries.len();
        while i > 0
            invariant
                i <= self.entries@.len(),
                forall|j: int| i <= j < self.entries@.len() ==> (#[trigger] self.entries@[j]).0@ != k@,
            decreases i,
        {
            if text::str_eq(self.entries[i - 1].0.as_str(), k) {
                proof {
                    let s = self.entries@;
                    lemma_log_suffix(s, i as int, k@);
                    assert(s.take(i as int).drop_last() =~= s.take(i - 1));
                }
                return Some(i - 1);
            }
            i = i - 1;
        }
        proof {
            lemma_log_suffix(self.entries@, 0, k@);
            assert(self.entries@.take(0) =~= Seq::<(String, V)>::empty());
        }
        None
    }

    /// Whether `k` is bound.
    pub fn contains(&self, k: &str) -> (r: bool)
        ensures
            r == self@.contains_key(k@),
    {
        self.find(k).is_some()
    }

    /// The newest binding of `k`.
    pub fn get(&self, k: &str) -> (r: Option<&V>)
        ensures
            match r {
                Some(v) => self@.contains_key(k@) && *v == self@[k@],
                None => !self@.contains_key(k@),
            },
    {
        match self.find(k) {
            Some(i) => Some(&self.entries[i].1),
            None => None,
        }
    }

    /// Whether nothing is bound.
    pub fn is_empty(&self) -> (r: bool)
        ensures
            r == (self.entries@.len() == 0),
            r ==> self@ == Map::<Seq<char>, V>::empty(),
    {
        assert(self.entries@.len() == 0 ==> self@ =~= Map::<Seq<char>, V>::empty());
        self.entries.len() == 0
    }

    /// Number of log entries (at least the number of distinct names).
    pub fn len(&self) -> (n: usize)
        ensures
            n == self.entries@.len(),
    {
        self.entries.len()
    }
}

/// Copy every binding of `src` into `dst`, `src` winning on clashes.
pub fn merge_into<V: Copy>(dst: &mut NameMap<V>, src: &NameMap<V>)
    ensures
        final(dst)@ == old(dst)@.union_prefer_right(src@),
{
    let mut i: usize = 0;
    while i < src.entries.len()
        invariant
            i <= src.entries@.len(),
            dst@ == replay(old(dst)@, src.entries@.take(i as int)),
        decreases src.entries@.len() - i,
    {
        let k = src.entries[i].0.clone();
        let v = src.entries[i].1;
        dst.insert(k, v);
        proof {
            assert(src.entries@.take(i + 1).drop_last() =~= src.entries@.take(i as int));
        }
        i = i + 1;
    }
    proof {
        assert(src.entries@.take(i as int) =~= src.entries@);
        lemma_replay(old(dst)@, src.entries@);
    }
}

/// Move every binding of `src` into `dst`, `src` winning on clashes.
pub fn absorb<V>(dst: &mut NameMap<V>, src: NameMap<V>)
    ensures
        final(dst)@ == old(dst)@.union_prefer_right(src@),
{
    let mut es = src.entries;
    let ghost orig = es@;
    let ghost mut i: int = 0;
    assert(orig.skip(0) =~= orig);
    while es.len() > 0
        invariant
            0 <= i <= orig.len(),
            es@ == orig.skip(i),
            dst@ == replay(old(dst)@, orig.take(i)),
        decreases es@.len(),
    {
        let (k, v) = es.remove(0);
        proof {
            assert(orig[i] == (k, v));
            assert(orig.take(i + 1).drop_last() =~= orig.take(i));
        }
        dst.insert(k, v);
        proof {
            i = i + 1;
            assert(es@ =~= orig.skip(i));
        }
    }
    proof {
        assert(orig.take(i) =~= orig);
        lemma_replay(old(dst)@, orig);
    }
}

/// Two logs with the same keys, entry by entry, where every value of the
/// second is `w`: the second's map has the first's keys, each bound to
/// `w`.
pub proof fn lemma_log_const<V, W>(a: Seq<(String, V)>, b: Seq<(String, W)>, w: W)
    requires
        a.len() == b.len(),
        forall|j: int| 0 <= j < a.len() ==> (#[trigger] b[j]).0@ == a[j].0@ && b[j].1 == w,
    ensures
        log_map(b).dom() == log_map(a).dom(),
        forall|k: Seq<char>| #[trigger] log_map(b).contains_key(k) ==> log_map(b)[k] == w,
    decreases a.len(),
{
    if a.len() > 0 {
        lemma_log_const(a.drop_last(), b.drop_last(), w);
        assert(b.last() == b[b.len() - 1]);
        assert(log_map(b).dom() =~= log_map(a).dom());
    }
}

/// First entry of a static table with key `k`.
pub open spec fn table_get<T>(t: Seq<(Seq<char>, T)>, k: Seq<char>) -> Option<T>
    decreases t.len(),
{
    if t.len() == 0 {
        None
    } else if t[0].0 == k {
        Some(t[0].1)
    } else {
        table_get(t.drop_first(), k)
    }
}

/// The model of a table of `'static` names.
pub open spec fn static_view<T>(v: Seq<(&'static str, T)>) -> Seq<(Seq<char>, T)> {
    v.map_values(|p: (&'static str, T)| (p.0@, p.1))
}

/// Look `k` up in a static table; the first entry wins.
pub fn lookup_static<T: Copy>(t: &Vec<(&'static str, T)>, k: &str) -> (r: Option<T>)
    ensures
        r == table_get(static_view(t@), k@),
{
    let ghost tv = static_view(t@);
    let mut i: usize = 0;
    assert(tv.skip(0) =~= tv);
    while i < t.len()
        invariant
            tv == static_view(t@),
            i <= t@.len(),
            table_get(tv, k@) == table_get(tv.skip(i as int), k@),
        decreases t@.len() - i,
    {
        proof {
            assert(tv.skip(i as int).drop_first() =~= tv.skip(i + 1));
            assert(tv.skip(i as int)[0] == tv[i as int]);
        }
        if text::str_eq(t[i].0, k) {
            return Some(t[i].1);
        }
        i = i + 1;
    }
    proof {
        assert(tv.skip(i as int).len() == 0);
    }
    None
}

} // verus!
