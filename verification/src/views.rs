//! Element-wise views of sequences, and a map that keeps insertion order.
use vstd::prelude::*;

verus! {

/// Equality, as a predicate.
pub open spec fn same<T>(a: T, b: T) -> bool {
    a == b
}

/// The views of the elements.
pub open spec fn views<T: View>(s: Seq<T>) -> Seq<T::V> {
    Seq::new(s.len(), |i: int| s[i]@)
}

pub broadcast proof fn views_empty<T: View>()
    ensures
        #[trigger] views(Seq::<T>::empty()) == Seq::<T::V>::empty(),
{
    assert(views(Seq::<T>::empty()) =~= Seq::<T::V>::empty());
}

pub broadcast proof fn views_push<T: View>(s: Seq<T>, x: T)
    ensures
        #[trigger] views(s.push(x)) == views(s).push(x@),
{
    assert(views(s.push(x)) =~= views(s).push(x@));
}

pub broadcast proof fn views_update<T: View>(s: Seq<T>, i: int, x: T)
    requires
        0 <= i < s.len(),
    ensures
        #[trigger] views(s.update(i, x)) == views(s).update(i, x@),
{
    assert(views(s.update(i, x)) =~= views(s).update(i, x@));
}

pub broadcast proof fn views_drop_last<T: View>(s: Seq<T>)
    requires
        s.len() > 0,
    ensures
        #[trigger] views(s.drop_last()) == views(s).drop_last(),
{
    assert(views(s.drop_last()) =~= views(s).drop_last());
}

pub broadcast proof fn views_subrange<T: View>(s: Seq<T>, i: int, j: int)
    requires
        0 <= i <= j <= s.len(),
    ensures
        #[trigger] views(s.subrange(i, j)) == views(s).subrange(i, j),
{
    assert(views(s.subrange(i, j)) =~= views(s).subrange(i, j));
}

pub broadcast proof fn views_add<T: View>(s: Seq<T>, t: Seq<T>)
    ensures
        #[trigger] views(s + t) == views(s) + views(t),
{
    assert(views(s + t) =~= views(s) + views(t));
}

pub broadcast group group_views {
    views_empty,
    views_push,
    views_update,
    views_drop_last,
    views_subrange,
    views_add,
}

/// A type whose values can be compared by their views and copied.
pub trait Key: View + Sized {
    fn same_key(&self, other: &Self) -> (r: bool)
        ensures
            r == (self@ == other@),
    ;

    fn copy_key(&self) -> (r: Self)
        ensures
            r@ == self@,
    ;
}

impl Key for String {
    fn same_key(&self, other: &Self) -> (r: bool) {
        *self == *other
    }

    fn copy_key(&self) -> (r: Self) {
        self.clone()
    }
}

impl Key for (String, String) {
    fn same_key(&self, other: &Self) -> (r: bool) {
        self.0 == other.0 && self.1 == other.1
    }

    fn copy_key(&self) -> (r: Self) {
        (self.0.clone(), self.1.clone())
    }
}

/// A map as a list of entries, no key twice.
#[derive(Debug)]
pub struct Dict<K: Key, V: View> {
    entries: Vec<(K, V)>,
}

/// The map that a list of entries denotes.
pub open spec fn entries_map<K: View, V: View>(s: Seq<(K, V)>) -> Map<K::V, V::V>
    decreases s.len(),
{
    if s.len() == 0 {
        Map::empty()
    } else {
        entries_map(s.drop_last()).insert(s.last().0@, s.last().1@)
    }
}

/// No key occurs twice.
pub open spec fn distinct_keys<K: View, V>(s: Seq<(K, V)>) -> bool {
    forall|i: int, j: int|
        #![trigger s[i], s[j]]
        0 <= i < j < s.len() ==> s[i].0@ != s[j].0@
}

pub proof fn lemma_entry<K: View, V: View>(s: Seq<(K, V)>, i: int)
    requires
        distinct_keys(s),
        0 <= i < s.len(),
    ensures
        entries_map(s).contains_key(s[i].0@),
        entries_map(s)[s[i].0@] == s[i].1@,
    decreases s.len(),
{
    if i < s.len() - 1 {
        assert(distinct_keys(s.drop_last()));
        lemma_entry(s.drop_last(), i);
        assert(s.drop_last()[i] == s[i]);
        assert(s[i].0@ != s[s.len() - 1].0@);
    }
}

pub proof fn lemma_has_entry<K: View, V: View>(s: Seq<(K, V)>, k: K::V)
    requires
        entries_map(s).contains_key(k),
    ensures
        exists|i: int| 0 <= i < s.len() && #[trigger] s[i].0@ == k,
    decreases s.len(),
{
    if s.last().0@ == k {
        assert(s[s.len() - 1].0@ == k);
    } else {
        lemma_has_entry(s.drop_last(), k);
        let i = choose|i: int| 0 <= i < s.drop_last().len() && #[trigger] s.drop_last()[i].0@ == k;
        assert(s[i].0@ == k);
    }
}

pub proof fn lemma_entries_len<K: View, V: View>(s: Seq<(K, V)>)
    requires
        distinct_keys(s),
    ensures
        entries_map(s).dom().finite(),
        entries_map(s).dom().len() == s.len(),
    decreases s.len(),
{
    if s.len() > 0 {
        let rest = s.drop_last();
        assert(distinct_keys(rest));
        lemma_entries_len(rest);
        if entries_map(rest).contains_key(s.last().0@) {
            lemma_has_entry(rest, s.last().0@);
            let i = choose|i: int| 0 <= i < rest.len() && #[trigger] rest[i].0@ == s.last().0@;
            assert(s[i].0@ == s[s.len() - 1].0@);
        }
        assert(entries_map(s).dom() =~= entries_map(rest).dom().insert(s.last().0@));
    }
}

proof fn lemma_entries_update<K: View, V: View>(s: Seq<(K, V)>, i: int, e: (K, V))
    requires
        distinct_keys(s),
        0 <= i < s.len(),
        e.0@ == s[i].0@,
    ensures
        distinct_keys(s.update(i, e)),
        entries_map(s.update(i, e)) == entries_map(s).insert(e.0@, e.1@),
    decreases s.len(),
{
    let t = s.update(i, e);
    assert(distinct_keys(s.drop_last()));
    if i == s.len() - 1 {
        assert(t.drop_last() =~= s.drop_last());
    } else {
        assert(t.drop_last() =~= s.drop_last().update(i, e));
        lemma_entries_update(s.drop_last(), i, e);
        assert(s[i].0@ != s[s.len() - 1].0@);
        assert(entries_map(t) =~= entries_map(s).insert(e.0@, e.1@));
    }
}

proof fn lemma_entries_remove<K: View, V: View>(s: Seq<(K, V)>, i: int)
    requires
        distinct_keys(s),
        0 <= i < s.len(),
    ensures
        distinct_keys(s.remove(i)),
        entries_map(s.remove(i)) == entries_map(s).remove(s[i].0@),
    decreases s.len(),
{
    assert(distinct_keys(s.drop_last()));
    if i == s.len() - 1 {
        assert(s.remove(i) =~= s.drop_last());
        if entries_map(s.drop_last()).contains_key(s[i].0@) {
            lemma_has_entry(s.drop_last(), s[i].0@);
            let j = choose|j: int|
                0 <= j < s.drop_last().len() && #[trigger] s.drop_last()[j].0@ == s[i].0@;
            assert(s[j].0@ == s[i].0@);
        }
        assert(entries_map(s.remove(i)) =~= entries_map(s).remove(s[i].0@));
    } else {
        lemma_entries_remove(s.drop_last(), i);
        assert(s.remove(i).drop_last() =~= s.drop_last().remove(i));
        assert(s[i].0@ != s[s.len() - 1].0@);
        assert(entries_map(s.remove(i)) =~= entries_map(s).remove(s[i].0@));
    }
}

impl<K: Key, V: View> View for Dict<K, V> {
    type V = Map<K::V, V::V>;

    closed spec fn view(&self) -> Map<K::V, V::V> {
        entries_map(self.entries@)
    }
}

impl<K: Key, V: View> Dict<K, V> {
    #[verifier::type_invariant]
    spec fn well_formed(self) -> bool {
        distinct_keys(self.entries@)
    }

    pub fn new() -> (r: Self)
        ensures
            r@ == Map::<K::V, V::V>::empty(),
    {
        Dict { entries: Vec::new() }
    }

    /// The entries, in the order in which their keys came.
    pub fn entries(&self) -> (r: &Vec<(K, V)>)
        ensures
            distinct_keys(r@),
            entries_map(r@) == self@,
    {
        proof {
            use_type_invariant(self);
        }
        &self.entries
    }

    pub fn len(&self) -> (n: usize)
        ensures
            self@.dom().finite(),
            n == self@.dom().len(),
    {
        proof {
            use_type_invariant(self);
            lemma_entries_len(self.entries@);
        }
        self.entries.len()
    }

    fn position(&self, key: &K) -> (r: Option<usize>)
        ensures
            match r {
                Some(i) => i < self.entries@.len() && self.entries@[i as int].0@ == key@,
                None => !self@.contains_key(key@),
            },
    {
        let mut i: usize = 0;
        while i < self.entries.len()
            invariant
                i <= self.entries@.len(),
                forall|j: int| 0 <= j < i ==> #[trigger] self.entries@[j].0@ != key@,
            decreases self.entries@.len() - i,
        {
            if self.entries[i].0.same_key(key) {
                return Some(i);
            }
            i += 1;
        }
        proof {
            if self@.contains_key(key@) {
                lemma_has_entry(self.entries@, key@);
            }
        }
        None
    }

    pub fn contains_key(&self, key: &K) -> (r: bool)
        ensures
            r == self@.contains_key(key@),
    {
        proof {
            use_type_invariant(self);
        }
        match self.position(key) {
            Some(i) => {
                proof {
                    lemma_entry(self.entries@, i as int);
                }
                true
            },
            None => false,
        }
    }

    pub fn get(&self, key: &K) -> (r: Option<&V>)
        ensures
            match r {
                Some(v) => self@.contains_key(key@) && self@[key@] == v@,
                None => !self@.contains_key(key@),
            },
    {
        proof {
            use_type_invariant(self);
        }
        match self.position(key) {
            Some(i) => {
                proof {
                    lemma_entry(self.entries@, i as int);
                }
                Some(&self.entries[i].1)
            },
            None => None,
        }
    }

    /// Puts a value under a key; says whether the key was there.
    pub fn insert(&mut self, key: K, value: V) -> (r: bool)
        ensures
            final(self)@ == old(self)@.insert(key@, value@),
            r == old(self)@.contains_key(key@),
    {
        proof {
            use_type_invariant(&*self);
        }
        let at = self.position(&key);
        let mut entries: Vec<(K, V)> = Vec::new();
        std::mem::swap(&mut entries, &mut self.entries);
        let ghost before = entries@;
        match at {
            Some(i) => {
                proof {
                    lemma_entry(before, i as int);
                    lemma_entries_update(before, i as int, (key, value));
                }
                entries[i] = (key, value);
                self.entries = entries;
                true
            },
            None => {
                proof {
                    assert forall|j: int| 0 <= j < before.len() implies before[j].0@ != key@ by {
                        lemma_entry(before, j);
                    }
                    assert(before.push((key, value)).drop_last() =~= before);
                    assert(distinct_keys(before.push((key, value))));
                }
                entries.push((key, value));
                self.entries = entries;
                false
            },
        }
    }

    /// Takes a key out; says whether it was there.
    pub fn remove(&mut self, key: &K) -> (r: bool)
        ensures
            final(self)@ == old(self)@.remove(key@),
            r == old(self)@.contains_key(key@),
    {
        proof {
            use_type_invariant(&*self);
        }
        match self.position(key) {
            Some(i) => {
                let mut entries: Vec<(K, V)> = Vec::new();
                std::mem::swap(&mut entries, &mut self.entries);
                proof {
                    lemma_entry(entries@, i as int);
                    lemma_entries_remove(entries@, i as int);
                }
                let _taken = entries.remove(i);
                self.entries = entries;
                true
            },
            None => {
                assert(self@.remove(key@) =~= self@);
                false
            },
        }
    }
}

/// A value that can be copied, keeping its view.
pub trait Duplicate: View + Sized {
    fn duplicate(&self) -> (r: Self)
        ensures
            r@ == self@,
    ;
}

proof fn lemma_same_views_same_map<K: View, V: View>(s: Seq<(K, V)>, t: Seq<(K, V)>)
    requires
        s.len() == t.len(),
        forall|i: int| 0 <= i < s.len() ==> #[trigger] s[i].0@ == t[i].0@ && s[i].1@ == t[i].1@,
    ensures
        entries_map(s) == entries_map(t),
    decreases s.len(),
{
    if s.len() > 0 {
        assert(s[s.len() - 1].0@ == t[s.len() - 1].0@);
        assert forall|i: int| 0 <= i < s.drop_last().len() implies #[trigger] s.drop_last()[i].0@
            == t.drop_last()[i].0@ && s.drop_last()[i].1@ == t.drop_last()[i].1@ by {
            assert(s[i].0@ == t[i].0@);
        }
        lemma_same_views_same_map(s.drop_last(), t.drop_last());
    }
}

impl<K: Key, V: Duplicate> Dict<K, V> {
    pub fn copied(&self) -> (r: Self)
        ensures
            r@ == self@,
    {
        proof {
            use_type_invariant(self);
        }
        let mut entries: Vec<(K, V)> = Vec::new();
        let mut i: usize = 0;
        while i < self.entries.len()
            invariant
                i <= self.entries@.len(),
                entries@.len() == i,
                forall|j: int|
                    0 <= j < i ==> #[trigger] entries@[j].0@ == self.entries@[j].0@ && entries@[j].1@
                        == self.entries@[j].1@,
            decreases self.entries@.len() - i,
        {
            entries.push((self.entries[i].0.copy_key(), self.entries[i].1.duplicate()));
            i += 1;
        }
        proof {
            assert forall|a: int, b: int|
                #![trigger entries@[a], entries@[b]]
                0 <= a < b < entries@.len() implies entries@[a].0@ != entries@[b].0@ by {
                assert(entries@[a].0@ == self.entries@[a].0@);
                assert(entries@[b].0@ == self.entries@[b].0@);
            }
            lemma_same_views_same_map(entries@, self.entries@);
        }
        Dict { entries }
    }
}

impl Duplicate for String {
    fn duplicate(&self) -> (r: Self) {
        self.clone()
    }
}

/// Copies of the elements.
pub fn duplicate_all<T: Duplicate>(v: &Vec<T>) -> (r: Vec<T>)
    ensures
        views(r@) == views(v@),
{
    let mut out: Vec<T> = Vec::new();
    let mut i: usize = 0;
    while i < v.len()
        invariant
            i <= v@.len(),
            out@.len() == i,
            forall|j: int| 0 <= j < i ==> #[trigger] out@[j]@ == v@[j]@,
        decreases v@.len() - i,
    {
        out.push(v[i].duplicate());
        i += 1;
    }
    assert(views(out@) =~= views(v@));
    out
}

} // verus!
