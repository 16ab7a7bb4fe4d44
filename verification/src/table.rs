//! Association tables and name sets with map and set views.

use vstd::prelude::*;

use crate::span::Span;
use crate::text::str_eq;

verus! {

/// A key whose equality is equality of content.
pub trait Key: View + Sized {
    /// Whether two keys have the same content.
    fn same(&self, other: &Self) -> (r: bool)
        ensures
            r == (self@ == other@),
    ;
}

impl Key for String {
    fn same(&self, other: &Self) -> (r: bool) {
        str_eq(self.as_str(), other.as_str())
    }
}

/// The place of a piece of source text as a key.
#[derive(Debug, Clone, Copy, PartialEq, Eq, Structural)]
pub struct Place(pub usize, pub usize);

impl View for Place {
    type V = Place;

    open spec fn view(&self) -> Place {
        *self
    }
}

impl Key for Place {
    fn same(&self, other: &Self) -> (r: bool) {
        self.0 == other.0 && self.1 == other.1
    }
}

/// The place of a span.
pub open spec fn place_of(s: Span) -> Place {
    Place(s.start, s.end)
}

impl Place {
    /// The place of a span.
    pub fn of(s: Span) -> (r: Place)
        ensures
            r == place_of(s),
    {
        Place(s.start, s.end)
    }
}

/// A member of an owner, by both names, as a key.
#[derive(Debug)]
pub struct Member(pub String, pub String);

impl View for Member {
    type V = (Seq<char>, Seq<char>);

    open spec fn view(&self) -> (Seq<char>, Seq<char>) {
        (self.0@, self.1@)
    }
}

impl Key for Member {
    fn same(&self, other: &Self) -> (r: bool) {
        str_eq(self.0.as_str(), other.0.as_str()) && str_eq(self.1.as_str(), other.1.as_str())
    }
}

/// The map that a list of entries stands for: a later entry replaces an earlier
/// one with the same key.
pub open spec fn entries_map<K: View, V: View>(s: Seq<(K, V)>) -> Map<K::V, V::V>
    decreases s.len(),
{
    if s.len() == 0 {
        Map::empty()
    } else {
        entries_map(s.drop_last()).insert(s.last().0@, s.last().1@)
    }
}

/// The map of entries has finitely many keys.
pub proof fn entries_are_finite<K: View, V: View>(s: Seq<(K, V)>)
    ensures
        entries_map(s).dom().finite(),
    decreases s.len(),
{
    if s.len() > 0 {
        entries_are_finite(s.drop_last());
        assert(entries_map(s).dom() =~= entries_map(s.drop_last()).dom().insert(s.last().0@));
    }
}

/// A table from keys to values.
#[derive(Debug)]
pub struct Table<K, V> {
    entries: Vec<(K, V)>,
}

impl<K: View, V: View> View for Table<K, V> {
    type V = Map<K::V, V::V>;

    closed spec fn view(&self) -> Map<K::V, V::V> {
        entries_map(self.entries@)
    }
}

impl<K: Key, V: View> Table<K, V> {
    /// An empty table.
    pub fn new() -> (r: Self)
        ensures
            r@ == Map::<K::V, V::V>::empty(),
    {
        Table { entries: Vec::new() }
    }

    /// Sets the value of a key.
    pub fn insert(&mut self, key: K, value: V)
        ensures
            final(self)@ == old(self)@.insert(key@, value@),
    {
        let ghost before = self.entries@;
        self.entries.push((key, value));
        assert(self.entries@.drop_last() =~= before);
    }

    /// The value of a key.
    pub fn get(&self, key: &K) -> (r: Option<&V>)
        ensures
            match r {
                Some(v) => self@.dom().contains(key@) && self@[key@] == v@,
                None => !self@.dom().contains(key@),
            },
    {
        let mut i: usize = self.entries.len();
        let ghost all = self.entries@;
        assert(all.take(all.len() as int) =~= all);
        while i > 0
            invariant
                i <= all.len(),
                all == self.entries@,
                self@.dom().contains(key@) == entries_map(all.take(i as int)).dom().contains(key@),
                self@.dom().contains(key@) ==> self@[key@] == entries_map(all.take(i as int))[key@],
            decreases i,
        {
            i = i - 1;
            assert(all.take(i + 1).drop_last() =~= all.take(i as int));
            assert(all.take(i + 1).last() == all[i as int]);
            if self.entries[i].0.same(key) {
                return Some(&self.entries[i].1);
            }
        }
        None
    }

    /// Whether a key has a value.
    pub fn contains(&self, key: &K) -> (r: bool)
        ensures
            r == self@.dom().contains(key@),
    {
        match self.get(key) {
            Some(_) => true,
            None => false,
        }
    }

    /// A table has finitely many keys.
    pub proof fn finite(&self)
        ensures
            self@.dom().finite(),
    {
        entries_are_finite(self.entries@);
    }

    /// The number of keys.
    pub fn len(&self) -> (r: usize)
        ensures
            self@.dom().finite(),
            r == self@.dom().len(),
    {
        let mut n: usize = 0;
        let mut i: usize = 0;
        let ghost all = self.entries@;
        assert(all.take(0) =~= Seq::<(K, V)>::empty());
        while i < self.entries.len()
            invariant
                i <= all.len(),
                n <= i,
                all == self.entries@,
                entries_map(all.take(i as int)).dom().finite(),
                n == entries_map(all.take(i as int)).dom().len(),
            decreases all.len() - i,
        {
            let mut seen = false;
            let mut j: usize = 0;
            assert(all.take(0) =~= Seq::<(K, V)>::empty());
            while j < i
                invariant
                    j <= i < all.len(),
                    all == self.entries@,
                    seen == entries_map(all.take(j as int)).dom().contains(all[i as int].0@),
                decreases i - j,
            {
                assert(all.take(j + 1).drop_last() =~= all.take(j as int));
                assert(all.take(j + 1).last() == all[j as int]);
                if self.entries[j].0.same(&self.entries[i].0) {
                    seen = true;
                }
                j += 1;
            }
            assert(all.take(i + 1).drop_last() =~= all.take(i as int));
            assert(all.take(i + 1).last() == all[i as int]);
            proof {
                let m = entries_map(all.take(i as int));
                let k = all[i as int].0@;
                assert(m.insert(k, all[i as int].1@).dom() =~= m.dom().insert(k));
                if seen {
                    assert(m.dom().insert(k) =~= m.dom());
                }
            }
            if !seen {
                n += 1;
            }
            i += 1;
        }
        assert(all.take(all.len() as int) =~= all);
        n
    }

    /// The keys, possibly some of them more than once.
    pub fn keys(&self) -> (r: Vec<&K>)
        ensures
            forall|k: K::V|
                self@.dom().contains(k) <==> exists|i: int|
                    0 <= i < r@.len() && (#[trigger] r@[i])@ == k,
    {
        let mut out: Vec<&K> = Vec::new();
        let mut i: usize = 0;
        while i < self.entries.len()
            invariant
                i <= self.entries@.len(),
                out@.len() == i,
                forall|j: int| 0 <= j < i ==> (#[trigger] out@[j])@ == self.entries@[j].0@,
            decreases self.entries@.len() - i,
        {
            out.push(&self.entries[i].0);
            i += 1;
        }
        proof {
            assert forall|k: K::V|
                self@.dom().contains(k) <==> exists|i: int|
                    0 <= i < out@.len() && (#[trigger] out@[i])@ == k by {
                if self@.dom().contains(k) {
                    key_has_entry(self.entries@, k);
                    let i = choose|i: int|
                        0 <= i < self.entries@.len() && (#[trigger] self.entries@[i]).0@ == k;
                    assert(out@[i]@ == k);
                }
                if exists|i: int| 0 <= i < out@.len() && (#[trigger] out@[i])@ == k {
                    let i = choose|i: int| 0 <= i < out@.len() && (#[trigger] out@[i])@ == k;
                    entry_has_key(self.entries@, i);
                }
            }
        }
        out
    }

    /// The value that was set last, of all that were set.
    pub fn latest(&self) -> (r: Option<&V>)
        ensures
            match r {
                Some(v) => exists|k: K::V| #[trigger] self@.dom().contains(k) && self@[k] == v@,
                None => self@ == Map::<K::V, V::V>::empty(),
            },
    {
        let n: usize = self.entries.len();
        if n == 0 {
            None
        } else {
            assert(self@.dom().contains(self.entries@.last().0@));
            Some(&self.entries[n - 1].1)
        }
    }
}

impl<K: Key + Copy, V: View + Copy> Table<K, V> {
    /// A copy of the table.
    pub fn duplicate(&self) -> (r: Self)
        ensures
            r@ == self@,
    {
        let mut entries: Vec<(K, V)> = Vec::new();
        let mut i: usize = 0;
        while i < self.entries.len()
            invariant
                i <= self.entries@.len(),
                entries@ =~= self.entries@.take(i as int),
            decreases self.entries@.len() - i,
        {
            entries.push((self.entries[i].0, self.entries[i].1));
            i += 1;
        }
        assert(entries@ =~= self.entries@);
        Table { entries }
    }

    /// Drops a key.
    pub fn remove(&mut self, key: &K)
        ensures
            final(self)@ == old(self)@.remove(key@),
    {
        let ghost all = self.entries@;
        let mut entries: Vec<(K, V)> = Vec::new();
        let mut i: usize = 0;
        assert(all.take(0) =~= Seq::<(K, V)>::empty());
        assert(entries_map(entries@) =~= entries_map(all.take(0)).remove(key@));
        while i < self.entries.len()
            invariant
                i <= all.len(),
                all == self.entries@,
                entries_map(entries@) == entries_map(all.take(i as int)).remove(key@),
            decreases all.len() - i,
        {
            assert(all.take(i + 1).drop_last() =~= all.take(i as int));
            assert(all.take(i + 1).last() == all[i as int]);
            let ghost before = entries@;
            if !self.entries[i].0.same(key) {
                entries.push((self.entries[i].0, self.entries[i].1));
                assert(entries@.drop_last() =~= before);
            }
            assert(entries_map(entries@) =~= entries_map(all.take(i + 1)).remove(key@));
            i += 1;
        }
        assert(all.take(all.len() as int) =~= all);
        self.entries = entries;
    }

    /// Drops the keys that another table does not have.
    pub fn keep(&mut self, other: &Self)
        ensures
            final(self)@ == old(self)@.restrict(other@.dom()),
    {
        let ghost all = self.entries@;
        let ghost dom = other@.dom();
        let mut entries: Vec<(K, V)> = Vec::new();
        let mut i: usize = 0;
        assert(all.take(0) =~= Seq::<(K, V)>::empty());
        assert(entries_map(entries@) =~= entries_map(all.take(0)).restrict(dom));
        while i < self.entries.len()
            invariant
                i <= all.len(),
                all == self.entries@,
                dom == other@.dom(),
                entries_map(entries@) == entries_map(all.take(i as int)).restrict(dom),
            decreases all.len() - i,
        {
            assert(all.take(i + 1).drop_last() =~= all.take(i as int));
            assert(all.take(i + 1).last() == all[i as int]);
            let key = self.entries[i].0;
            let value = self.entries[i].1;
            let ghost before = entries@;
            if other.contains(&key) {
                entries.push((key, value));
                assert(entries@.drop_last() =~= before);
            }
            assert(entries_map(entries@) =~= entries_map(all.take(i + 1)).restrict(dom));
            i += 1;
        }
        assert(all.take(all.len() as int) =~= all);
        self.entries = entries;
    }
}

proof fn entry_has_key<K: View, V: View>(s: Seq<(K, V)>, i: int)
    requires
        0 <= i < s.len(),
    ensures
        entries_map(s).dom().contains(s[i].0@),
    decreases s.len(),
{
    if i < s.len() - 1 {
        entry_has_key(s.drop_last(), i);
        assert(s.drop_last()[i] == s[i]);
    }
}

proof fn key_has_entry<K: View, V: View>(s: Seq<(K, V)>, k: K::V)
    requires
        entries_map(s).dom().contains(k),
    ensures
        exists|i: int| 0 <= i < s.len() && (#[trigger] s[i]).0@ == k,
    decreases s.len(),
{
    if s.last().0@ == k {
        assert(s[s.len() - 1].0@ == k);
    } else {
        key_has_entry(s.drop_last(), k);
        let i = choose|i: int| 0 <= i < s.drop_last().len() && (#[trigger] s.drop_last()[i]).0@ == k;
        assert(s[i].0@ == k);
    }
}

impl<K: Key> Table<K, u8> {
    /// Whether a key has the given value.
    pub fn has_value(&self, value: u8) -> (r: bool)
        ensures
            r == exists|k: K::V| #[trigger] self@.dom().contains(k) && self@[k] == value,
    {
        let mut i: usize = 0;
        while i < self.entries.len()
            invariant
                i <= self.entries@.len(),
                forall|j: int|
                    0 <= j < i ==> !(self@.dom().contains((#[trigger] self.entries@[j]).0@)
                        && self@[self.entries@[j].0@] == value),
            decreases self.entries@.len() - i,
        {
            match self.get(&self.entries[i].0) {
                Some(v) => {
                    if *v == value {
                        assert(self@.dom().contains(self.entries@[i as int].0@));
                        return true;
                    }
                },
                None => {},
            }
            i += 1;
        }
        proof {
            assert forall|k: K::V| #[trigger] self@.dom().contains(k) implies self@[k] != value by {
                key_has_entry(self.entries@, k);
            }
        }
        false
    }
}

/// A set of names.
#[derive(Debug)]
pub struct NameSet {
    items: Vec<String>,
}

impl View for NameSet {
    type V = Set<Seq<char>>;

    closed spec fn view(&self) -> Set<Seq<char>> {
        Set::new(|n: Seq<char>| exists|i: int| 0 <= i < self.items@.len() && #[trigger] self.items@[i]@ == n)
    }
}

impl NameSet {
    /// The empty set.
    pub fn new() -> (r: Self)
        ensures
            r@ == Set::<Seq<char>>::empty(),
    {
        let r = NameSet { items: Vec::new() };
        assert(r@ =~= Set::<Seq<char>>::empty());
        r
    }

    /// Adds a name.
    pub fn insert(&mut self, name: String)
        ensures
            final(self)@ == old(self)@.insert(name@),
    {
        let ghost before = self.items@;
        self.items.push(name);
        proof {
            assert forall|n: Seq<char>| self@.contains(n) == old(self)@.insert(name@).contains(n) by {
                if old(self)@.contains(n) {
                    let i = choose|i: int| 0 <= i < before.len() && #[trigger] before[i]@ == n;
                    assert(self.items@[i]@ == n);
                }
                if n == name@ {
                    assert(self.items@[before.len() as int]@ == n);
                }
                if self@.contains(n) {
                    let i = choose|i: int|
                        0 <= i < self.items@.len() && #[trigger] self.items@[i]@ == n;
                    if i < before.len() {
                        assert(before[i]@ == n);
                    }
                }
            }
            assert(self@ =~= old(self)@.insert(name@));
        }
    }

    /// Whether a name is in the set.
    pub fn contains(&self, name: &str) -> (r: bool)
        ensures
            r == self@.contains(name@),
    {
        let mut i: usize = 0;
        while i < self.items.len()
            invariant
                i <= self.items@.len(),
                forall|k: int| 0 <= k < i ==> (#[trigger] self.items@[k])@ != name@,
            decreases self.items@.len() - i,
        {
            if str_eq(self.items[i].as_str(), name) {
                assert(self.items@[i as int]@ == name@);
                return true;
            }
            i += 1;
        }
        false
    }

    /// Whether the set is empty.
    pub fn is_empty(&self) -> (r: bool)
        ensures
            r == (self@ == Set::<Seq<char>>::empty()),
    {
        if self.items.len() == 0 {
            assert(self@ =~= Set::<Seq<char>>::empty());
            true
        } else {
            assert(self.items@[0]@ == self.items@[0]@);
            assert(self@.contains(self.items@[0]@));
            false
        }
    }

    /// A copy of the set.
    pub fn duplicate(&self) -> (r: Self)
        ensures
            r@ == self@,
    {
        let mut r = NameSet::new();
        let mut i: usize = 0;
        while i < self.items.len()
            invariant
                i <= self.items@.len(),
                forall|n: Seq<char>| #[trigger]
                    r@.contains(n) <==> exists|k: int|
                        0 <= k < i && (#[trigger] self.items@[k])@ == n,
            decreases self.items@.len() - i,
        {
            r.insert(self.items[i].clone());
            i += 1;
        }
        assert(r@ =~= self@);
        r
    }
}

} // verus!
