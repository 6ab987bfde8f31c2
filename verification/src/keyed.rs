//! A list of values under names, where no name occurs twice, kept in the order in which
//! the names were first inserted.

use vstd::prelude::*;

use crate::property::Duplicate;
use crate::text::str_equal;

verus! {

/// Whether no name occurs twice among the entries.
pub open spec fn keys_unique<T>(s: Seq<(Seq<char>, T)>) -> bool {
    forall|i: int, j: int| 0 <= i < s.len() && 0 <= j < s.len() && i != j ==> s[i].0 != s[j].0
}

/// Whether some entry has the name `k`.
pub open spec fn has_key<T>(s: Seq<(Seq<char>, T)>, k: Seq<char>) -> bool {
    exists|i: int| 0 <= i < s.len() && #[trigger] s[i].0 == k
}

/// The position of an entry named `k`.
pub open spec fn key_index<T>(s: Seq<(Seq<char>, T)>, k: Seq<char>) -> int {
    choose|i: int| 0 <= i < s.len() && #[trigger] s[i].0 == k
}

/// The value under the name `k`, if there is one.
pub open spec fn lookup<T>(s: Seq<(Seq<char>, T)>, k: Seq<char>) -> Option<T> {
    if has_key(s, k) {
        Some(s[key_index(s, k)].1)
    } else {
        None
    }
}

/// The entries after `v` is put under the name `k`: in place of the old value where the
/// name is present, else at the end.
pub open spec fn upsert<T>(s: Seq<(Seq<char>, T)>, k: Seq<char>, v: T) -> Seq<(Seq<char>, T)> {
    if has_key(s, k) {
        s.update(key_index(s, k), (k, v))
    } else {
        s.push((k, v))
    }
}

/// The names of the entries, in order.
pub open spec fn keys_of<T>(s: Seq<(Seq<char>, T)>) -> Seq<Seq<char>> {
    s.map_values(|e: (Seq<char>, T)| e.0)
}

/// Where names are unique, the entry at position `i` is the one found under its name.
pub proof fn lemma_lookup_at<T>(s: Seq<(Seq<char>, T)>, i: int)
    requires
        keys_unique(s),
        0 <= i < s.len(),
    ensures
        has_key(s, s[i].0),
        key_index(s, s[i].0) == i,
        lookup(s, s[i].0) == Some(s[i].1),
{
    assert(has_key(s, s[i].0));
    let j = key_index(s, s[i].0);
    assert(s[j].0 == s[i].0);
}

/// Taking one more entry into a filtered and mapped prefix adds that entry's image when it
/// passes the filter.
pub proof fn lemma_filter_map_step<A, B>(
    s: Seq<A>,
    p: spec_fn(A) -> bool,
    f: spec_fn(A) -> B,
    i: int,
)
    requires
        0 <= i < s.len(),
    ensures
        s.subrange(0, i + 1).filter(p).map_values(f) == if p(s[i]) {
            s.subrange(0, i).filter(p).map_values(f).push(f(s[i]))
        } else {
            s.subrange(0, i).filter(p).map_values(f)
        },
{
    broadcast use Seq::lemma_filter_push;

    assert(s.subrange(0, i + 1) =~= s.subrange(0, i).push(s[i]));
    if p(s[i]) {
        assert(s.subrange(0, i).filter(p).push(s[i]).map_values(f) =~= s.subrange(
            0,
            i,
        ).filter(p).map_values(f).push(f(s[i])));
    }
}

/// A name found among the images of the entries that pass a filter, under a map that keeps
/// names, is the name of
/// one of those entries.
pub proof fn lemma_filter_map_has_key<A, B>(
    s: Seq<(Seq<char>, A)>,
    p: spec_fn((Seq<char>, A)) -> bool,
    f: spec_fn((Seq<char>, A)) -> (Seq<char>, B),
    k: Seq<char>,
)
    requires
        forall|e: (Seq<char>, A)| #[trigger] f(e).0 == e.0,
        has_key(s.filter(p).map_values(f), k),
    ensures
        has_key(s, k),
{
    broadcast use Seq::lemma_filter_contains_rev;

    let t = s.filter(p);
    let i = choose|i: int| 0 <= i < t.map_values(f).len() && #[trigger] t.map_values(f)[i].0 == k;
    assert(f(t[i]).0 == t[i].0);
    assert(t.contains(t[i]));
    assert(s.contains(t[i]));
    let j = choose|j: int| 0 <= j < s.len() && s[j] == t[i];
    assert(s[j].0 == k);
}

/// Values under names, where no name occurs twice.
#[derive(Debug)]
pub struct KeyedList<V: View> {
    names: Vec<String>,
    values: Vec<V>,
}

impl<V: View> View for KeyedList<V> {
    type V = Seq<(Seq<char>, V::V)>;

    closed spec fn view(&self) -> Seq<(Seq<char>, V::V)> {
        Seq::new(self.names@.len(), |i: int| (self.names@[i]@, self.values@[i]@))
    }
}

impl<V: View> KeyedList<V> {
    #[verifier::type_invariant]
    closed spec fn names_unique(&self) -> bool {
        &&& self.names@.len() == self.values@.len()
        &&& forall|a: int, b: int|
            0 <= a < self.names@.len() && 0 <= b < self.names@.len() && a != b
                ==> #[trigger] self.names@[a]@ != #[trigger] self.names@[b]@
    }

    /// No name occurs twice in a list.
    pub fn reveal_unique_names(&self)
        ensures
            keys_unique(self@),
    {
        proof {
            use_type_invariant(self);
            assert forall|a: int, b: int|
                0 <= a < self@.len() && 0 <= b < self@.len() && a != b implies #[trigger] self@[a].0
                != #[trigger] self@[b].0 by {
                assert(self@[a].0 == self.names@[a]@);
                assert(self@[b].0 == self.names@[b]@);
            }
        }
    }

    /// An empty list.
    pub fn new() -> (r: Self)
        ensures
            r@ == Seq::<(Seq<char>, V::V)>::empty(),
    {
        let r = KeyedList { names: Vec::new(), values: Vec::new() };
        assert(r@ =~= Seq::<(Seq<char>, V::V)>::empty());
        r
    }

    /// The number of entries.
    pub fn len(&self) -> (n: usize)
        ensures
            n == self@.len(),
    {
        self.names.len()
    }

    /// The name of the entry at position `i`.
    pub fn key_at(&self, i: usize) -> (k: &String)
        requires
            i < self@.len(),
        ensures
            k@ == self@[i as int].0,
    {
        &self.names[i]
    }

    /// The value of the entry at position `i`.
    pub fn value_at(&self, i: usize) -> (v: &V)
        requires
            i < self@.len(),
        ensures
            v@ == self@[i as int].1,
    {
        proof {
            use_type_invariant(self);
        }
        &self.values[i]
    }

    /// The position of the entry named `key`, if there is one.
    pub fn position(&self, key: &str) -> (r: Option<usize>)
        ensures
            r is Some == has_key(self@, key@),
            r matches Some(i) ==> i < self@.len() && i == key_index(self@, key@),
    {
        self.reveal_unique_names();
        let n = self.names.len();
        let mut i: usize = 0;
        while i < n
            invariant
                n == self@.len(),
                i <= n,
                keys_unique(self@),
                forall|j: int| 0 <= j < i ==> self@[j].0 != key@,
            decreases n - i,
        {
            assert(self@[i as int].0 == self.names@[i as int]@);
            if str_equal(self.names[i].as_str(), key) {
                proof {
                    lemma_lookup_at(self@, i as int);
                }
                return Some(i);
            }
            i = i + 1;
        }
        None
    }

    /// The value under the name `key`, if there is one.
    pub fn get(&self, key: &str) -> (r: Option<&V>)
        ensures
            (match r {
                Some(v) => Some(v@),
                None => None,
            }) == lookup(self@, key@),
    {
        proof {
            use_type_invariant(self);
        }
        match self.position(key) {
            Some(i) => Some(&self.values[i]),
            None => None,
        }
    }

    /// The value under the name `key`, to change in place; the names stay as they are.
    pub fn get_mut(&mut self, key: &str) -> (r: Option<&mut V>)
        ensures
            r is Some == has_key(old(self)@, key@),
            r matches Some(v) ==> (*v)@ == lookup(old(self)@, key@)->0 && final(self)@ == old(
                self,
            )@.update(key_index(old(self)@, key@), (key@, final(v)@)),
            r is None ==> final(self)@ == old(self)@,
    {
        proof {
            use_type_invariant(&*self);
        }
        match self.position(key) {
            Some(i) => Some(&mut self.values[i]),
            None => None,
        }
    }

    /// Whether some entry is named `key`.
    pub fn contains_key(&self, key: &str) -> (r: bool)
        ensures
            r == has_key(self@, key@),
    {
        self.position(key).is_some()
    }

    /// Puts `value` under the name `key`, in place of the value there or at the end.
    pub fn insert(&mut self, key: String, value: V)
        ensures
            final(self)@ == upsert(old(self)@, key@, value@),
    {
        proof {
            use_type_invariant(&*self);
        }
        let ghost old_view = self@;
        let ghost k = key@;
        let ghost v = value@;
        let position = self.position(key.as_str());
        let mut taken = KeyedList { names: Vec::new(), values: Vec::new() };
        std::mem::swap(&mut taken, self);
        proof {
            use_type_invariant(&taken);
        }
        let KeyedList { mut names, mut values } = taken;
        match position {
            Some(i) => {
                values.set(i, value);
                proof {
                    let changed = Seq::new(names@.len(), |j: int| (names@[j]@, values@[j]@));
                    assert(changed =~= old_view.update(i as int, (k, v)));
                }
            },
            None => {
                assert forall|j: int| 0 <= j < names@.len() implies #[trigger] names@[j]@ != k by {
                    assert(old_view[j].0 == names@[j]@);
                }
                names.push(key);
                values.push(value);
                proof {
                    let grown = Seq::new(names@.len(), |j: int| (names@[j]@, values@[j]@));
                    assert(grown =~= old_view.push((k, v)));
                }
            },
        }
        *self = KeyedList { names, values };
    }
}

impl<V: Duplicate> Duplicate for KeyedList<V> {
    fn duplicate(&self) -> (r: Self) {
        proof {
            use_type_invariant(self);
        }
        let n = self.names.len();
        let mut names: Vec<String> = Vec::new();
        let mut values: Vec<V> = Vec::new();
        let mut i: usize = 0;
        while i < n
            invariant
                n == self@.len(),
                n == self.values@.len(),
                i <= n,
                names@.len() == i,
                values@.len() == i,
                forall|j: int| 0 <= j < i ==> #[trigger] names@[j] == self.names@[j],
                forall|j: int| 0 <= j < i ==> #[trigger] values@[j]@ == self.values@[j]@,
            decreases n - i,
        {
            names.push(self.names[i].clone());
            values.push(self.values[i].duplicate());
            i = i + 1;
        }
        let r = KeyedList { names, values };
        assert(r@ =~= self@);
        r
    }
}

} // verus!
