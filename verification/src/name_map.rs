//! A map from names to values, kept as a list of entries with distinct names.

use vstd::prelude::*;

use crate::text::{contains, same};

verus! {

/// A map from names to values.
pub struct NameMap<T> {
    entries: Vec<(String, T)>,
}

/// No two entries have the same name.
pub open spec fn distinct_names<T>(e: Seq<(String, T)>) -> bool {
    forall|i: int, j: int| 0 <= i < j < e.len() ==> #[trigger] e[i].0@ != #[trigger] e[j].0@
}

pub open spec fn has_name<T>(e: Seq<(String, T)>, k: Seq<char>) -> bool {
    exists|i: int| 0 <= i < e.len() && #[trigger] e[i].0@ == k
}

pub open spec fn name_index<T>(e: Seq<(String, T)>, k: Seq<char>) -> int {
    choose|i: int| 0 <= i < e.len() && #[trigger] e[i].0@ == k
}

/// The map that a list of entries stands for.
pub open spec fn entries_map<T: DeepView>(e: Seq<(String, T)>) -> Map<Seq<char>, T::V> {
    Map::new(
        |k: Seq<char>| has_name(e, k),
        |k: Seq<char>| e[name_index(e, k)].1.deep_view(),
    )
}

impl<T: DeepView> View for NameMap<T> {
    type V = Map<Seq<char>, T::V>;

    closed spec fn view(&self) -> Map<Seq<char>, T::V> {
        entries_map(self.entries@)
    }
}

impl<T> NameMap<T> {
    #[verifier::type_invariant]
    spec fn names_are_distinct(self) -> bool {
        distinct_names(self.entries@)
    }
}

proof fn lemma_found<T: DeepView>(e: Seq<(String, T)>, i: int)
    requires
        distinct_names(e),
        0 <= i < e.len(),
    ensures
        entries_map(e).contains_key(e[i].0@),
        entries_map(e)[e[i].0@] == e[i].1.deep_view(),
{
    let k = e[i].0@;
    assert(has_name(e, k));
    let j = name_index(e, k);
    assert(0 <= j < e.len() && e[j].0@ == k);
    assert(i == j);
}

proof fn lemma_push<T: DeepView>(e: Seq<(String, T)>, x: (String, T))
    requires
        distinct_names(e),
        !has_name(e, x.0@),
    ensures
        distinct_names(e.push(x)),
        entries_map(e.push(x)) == entries_map(e).insert(x.0@, x.1.deep_view()),
{
    let f = e.push(x);
    assert forall|i: int, j: int| 0 <= i < j < f.len() implies #[trigger] f[i].0@
        != #[trigger] f[j].0@ by {
        if j == e.len() {
            assert(f[i] == e[i]);
            assert(e[i].0@ != x.0@);
        } else {
            assert(f[i] == e[i] && f[j] == e[j]);
        }
    }
    let a = entries_map(f);
    let b = entries_map(e).insert(x.0@, x.1.deep_view());
    assert forall|k: Seq<char>| a.contains_key(k) == b.contains_key(k) by {
        if has_name(f, k) {
            let i = name_index(f, k);
            if i < e.len() {
                assert(e[i].0@ == k);
            }
        }
        if has_name(e, k) {
            let i = name_index(e, k);
            assert(f[i].0@ == k);
        }
        if k == x.0@ {
            assert(f[e.len() as int].0@ == k);
        }
    }
    assert forall|k: Seq<char>| a.contains_key(k) implies a[k] == b[k] by {
        let i = name_index(f, k);
        assert(has_name(f, k));
        lemma_found(f, i);
        if i < e.len() {
            assert(e[i].0@ == k);
            lemma_found(e, i);
            assert(k != x.0@);
        }
    }
    assert(a =~= b);
}

proof fn lemma_remove<T: DeepView>(e: Seq<(String, T)>, f: Seq<(String, T)>, at: int)
    requires
        distinct_names(e),
        0 <= at < e.len(),
        f == e.update(at, e.last()).drop_last(),
    ensures
        distinct_names(f),
        entries_map(f) == entries_map(e).remove(e[at].0@),
        !has_name(f, e[at].0@),
{
    let name = e[at].0@;
    let n = e.len() - 1;
    assert forall|i: int| 0 <= i < f.len() implies #[trigger] f[i] == e[(if i == at {
        n
    } else {
        i
    })] by {}
    assert forall|i: int, j: int| 0 <= i < j < f.len() implies #[trigger] f[i].0@
        != #[trigger] f[j].0@ by {
        let a = if i == at {
            n
        } else {
            i
        };
        let b = if j == at {
            n
        } else {
            j
        };
        assert(f[i] == e[a] && f[j] == e[b]);
        assert(a != b);
    }
    assert forall|i: int| 0 <= i < f.len() implies #[trigger] f[i].0@ != name by {
        let a = if i == at {
            n
        } else {
            i
        };
        assert(f[i] == e[a]);
        assert(a != at);
    }
    let x = entries_map(f);
    let y = entries_map(e).remove(name);
    assert forall|k: Seq<char>| x.contains_key(k) == y.contains_key(k) by {
        if has_name(f, k) {
            let i = name_index(f, k);
            let a = if i == at {
                n
            } else {
                i
            };
            assert(e[a].0@ == k);
        }
        if has_name(e, k) && k != name {
            let i = name_index(e, k);
            let b = if i == n {
                at
            } else {
                i
            };
            assert(f[b] == e[i]);
            assert(f[b].0@ == k);
        }
    }
    assert forall|k: Seq<char>| x.contains_key(k) implies x[k] == y[k] by {
        assert(has_name(f, k));
        let i = name_index(f, k);
        lemma_found(f, i);
        let a = if i == at {
            n
        } else {
            i
        };
        assert(f[i] == e[a]);
        lemma_found(e, a);
    }
    assert(x =~= y);
}

proof fn lemma_entries_count<T: DeepView>(e: Seq<(String, T)>)
    requires
        distinct_names(e),
    ensures
        entries_map(e).dom().finite(),
        entries_map(e).dom().len() == e.len(),
    decreases e.len(),
{
    if e.len() == 0 {
        assert(entries_map(e).dom() =~= Set::<Seq<char>>::empty());
    } else {
        let f = e.drop_last();
        assert forall|i: int, j: int| 0 <= i < j < f.len() implies #[trigger] f[i].0@
            != #[trigger] f[j].0@ by {
            assert(f[i] == e[i] && f[j] == e[j]);
        }
        lemma_entries_count(f);
        assert(!has_name(f, e.last().0@)) by {
            if has_name(f, e.last().0@) {
                let i = name_index(f, e.last().0@);
                assert(e[i].0@ == e[e.len() - 1].0@);
            }
        }
        lemma_push(f, e.last());
        assert(f.push(e.last()) =~= e);
        assert(entries_map(e).dom() =~= entries_map(f).dom().insert(e.last().0@));
        assert(!entries_map(f).dom().contains(e.last().0@));
    }
}

impl<T: DeepView> NameMap<T> {
    /// The empty map.
    pub fn new() -> (r: Self)
        ensures
            r@ == Map::<Seq<char>, T::V>::empty(),
    {
        let r = NameMap { entries: Vec::new() };
        assert(r@ =~= Map::<Seq<char>, T::V>::empty());
        r
    }

    /// The place of the entry under `k`.
    fn find(&self, k: &str) -> (r: Option<usize>)
        ensures
            match r {
                Some(i) => i < self.entries@.len() && self.entries@[i as int].0@ == k@,
                None => !has_name(self.entries@, k@),
            },
    {
        let mut i: usize = 0;
        while i < self.entries.len()
            invariant
                i <= self.entries@.len(),
                forall|j: int| 0 <= j < i ==> #[trigger] self.entries@[j].0@ != k@,
            decreases self.entries@.len() - i,
        {
            if same(self.entries[i].0.as_str(), k) {
                return Some(i);
            }
            i += 1;
        }
        None
    }

    /// The value under `k`.
    pub fn get(&self, k: &str) -> (r: Option<&T>)
        ensures
            match r {
                Some(v) => self@.contains_key(k@) && self@[k@] == v.deep_view(),
                None => !self@.contains_key(k@),
            },
    {
        proof {
            use_type_invariant(self);
        }
        match self.find(k) {
            Some(i) => {
                proof {
                    lemma_found(self.entries@, i as int);
                }
                Some(&self.entries[i].1)
            },
            None => None,
        }
    }

    /// Whether there is a value under `k`.
    pub fn contains(&self, k: &str) -> (r: bool)
        ensures
            r == self@.contains_key(k@),
    {
        self.get(k).is_some()
    }

    /// Takes out the value under `k`.
    pub fn take(&mut self, k: &str) -> (r: Option<T>)
        ensures
            match r {
                Some(v) => old(self)@.contains_key(k@) && old(self)@[k@] == v.deep_view()
                    && final(self)@ == old(self)@.remove(k@),
                None => !old(self)@.contains_key(k@) && final(self)@ == old(self)@,
            },
    {
        proof {
            use_type_invariant(&*self);
        }
        match self.find(k) {
            Some(i) => {
                let ghost e = self.entries@;
                proof {
                    lemma_found(e, i as int);
                    lemma_remove(e, e.update(i as int, e.last()).drop_last(), i as int);
                }
                let mut entries: Vec<(String, T)> = Vec::new();
                std::mem::swap(&mut self.entries, &mut entries);
                let x = entries.swap_remove(i);
                self.entries = entries;
                Some(x.1)
            },
            None => None,
        }
    }

    /// Puts `v` under `k`, in place of what stood there.
    pub fn insert(&mut self, k: String, v: T)
        ensures
            final(self)@ == old(self)@.insert(k@, v.deep_view()),
    {
        let _dropped = self.take(k.as_str());
        proof {
            use_type_invariant(&*self);
            assert(!self@.contains_key(k@));
            assert(entries_map(self.entries@).contains_key(k@) == has_name(self.entries@, k@));
            lemma_push(self.entries@, (k, v));
        }
        let ghost m = self@;
        assert(m.insert(k@, v.deep_view()) =~= old(self)@.insert(k@, v.deep_view()));
        let mut entries: Vec<(String, T)> = Vec::new();
        std::mem::swap(&mut self.entries, &mut entries);
        entries.push((k, v));
        self.entries = entries;
    }

    /// The number of entries.
    pub closed spec fn size(&self) -> nat {
        self.entries@.len()
    }

    /// Takes out some entry.
    pub fn pop(&mut self) -> (r: Option<(String, T)>)
        ensures
            match r {
                Some(x) => old(self)@.contains_key(x.0@) && old(self)@[x.0@] == x.1.deep_view()
                    && final(self)@ == old(self)@.remove(x.0@) && final(self).size() + 1
                    == old(self).size(),
                None => old(self)@ == Map::<Seq<char>, T::V>::empty() && final(self)@ == old(
                    self,
                )@,
            },
    {
        proof {
            use_type_invariant(&*self);
        }
        let ghost e = self.entries@;
        if self.entries.len() == 0 {
            assert(self@ =~= Map::<Seq<char>, T::V>::empty());
            return None;
        }
        proof {
            let n = e.len() - 1;
            lemma_found(e, n);
            assert(e.update(n, e.last()).drop_last() =~= e.drop_last());
            lemma_remove(e, e.update(n, e.last()).drop_last(), n);
        }
        let mut entries: Vec<(String, T)> = Vec::new();
        std::mem::swap(&mut self.entries, &mut entries);
        let x = entries.pop();
        self.entries = entries;
        x
    }

    /// The number of names.
    pub fn len(&self) -> (r: usize)
        ensures
            self@.dom().finite(),
            r == self@.dom().len(),
    {
        proof {
            use_type_invariant(self);
            lemma_entries_count(self.entries@);
        }
        self.entries.len()
    }
}

} // verus!
