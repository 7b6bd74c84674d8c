//! An insertion-ordered association list keyed by strings, with no key twice.
use vstd::prelude::*;

verus! {

/// No two entries of `s` have keys with the same text.
pub open spec fn keys_unique<V>(s: Seq<(String, V)>) -> bool {
    forall|i: int, j: int|
        0 <= i < s.len() && 0 <= j < s.len() && i != j ==> #[trigger] s[i].0@ != #[trigger] s[j].0@
}

/// Some entry of `s` has key `k`.
pub open spec fn has_key<V>(s: Seq<(String, V)>, k: Seq<char>) -> bool {
    exists|i: int| 0 <= i < s.len() && #[trigger] s[i].0@ == k
}

/// The position of the entry with key `k`.
pub open spec fn key_pos<V>(s: Seq<(String, V)>, k: Seq<char>) -> Option<int> {
    if has_key(s, k) {
        Some(choose|i: int| 0 <= i < s.len() && #[trigger] s[i].0@ == k)
    } else {
        None
    }
}

/// The value stored under key `k`.
pub open spec fn lookup<V>(s: Seq<(String, V)>, k: Seq<char>) -> Option<V> {
    match key_pos(s, k) {
        Some(i) => Some(s[i].1),
        None => None,
    }
}

/// `s` with `v` stored under `k`: the entry with that key is replaced in
/// place, or a new entry goes at the end.
pub open spec fn insert_entry<V>(s: Seq<(String, V)>, k: String, v: V) -> Seq<(String, V)> {
    match key_pos(s, k@) {
        Some(i) => s.update(i, (k, v)),
        None => s.push((k, v)),
    }
}

/// `s` without the entry with key `k`; the others keep their order.
pub open spec fn remove_entry<V>(s: Seq<(String, V)>, k: Seq<char>) -> Seq<(String, V)> {
    match key_pos(s, k) {
        Some(i) => s.remove(i),
        None => s,
    }
}

/// With unique keys, the entry at `i` is the one `key_pos` finds for its key.
pub proof fn lemma_key_pos_at<V>(s: Seq<(String, V)>, i: int)
    requires
        keys_unique(s),
        0 <= i < s.len(),
    ensures
        key_pos(s, s[i].0@) == Some(i),
{
    assert(has_key(s, s[i].0@));
}

/// What an insertion gives back: the value just stored under its key, and the
/// old value under every other key; keys stay unique.
pub proof fn lemma_insert_entry<V>(s: Seq<(String, V)>, k: String, v: V, other: Seq<char>)
    requires
        keys_unique(s),
    ensures
        keys_unique(insert_entry(s, k, v)),
        lookup(insert_entry(s, k, v), k@) == Some(v),
        other != k@ ==> lookup(insert_entry(s, k, v), other) == lookup(s, other),
{
    let t = insert_entry(s, k, v);
    match key_pos(s, k@) {
        Some(i) => {
            assert(t[i].0@ == k@);
            lemma_key_pos_at(t, i);
            if has_key(s, other) && other != k@ {
                let j = choose|j: int| 0 <= j < s.len() && #[trigger] s[j].0@ == other;
                assert(t[j] == s[j]);
                lemma_key_pos_at(s, j);
                lemma_key_pos_at(t, j);
            }
            if !has_key(s, other) && other != k@ {
                assert forall|j: int| 0 <= j < t.len() implies #[trigger] t[j].0@ != other by {
                    if j != i {
                        assert(t[j] == s[j]);
                    }
                }
            }
        },
        None => {
            assert forall|a: int, b: int|
                0 <= a < t.len() && 0 <= b < t.len() && a != b implies #[trigger] t[a].0@
                != #[trigger] t[b].0@ by {
                if a < s.len() && b < s.len() {
                    assert(t[a] == s[a] && t[b] == s[b]);
                } else if a < s.len() {
                    assert(t[a] == s[a]);
                } else {
                    assert(t[b] == s[b]);
                }
            }
            lemma_key_pos_at(t, s.len() as int);
            if has_key(s, other) && other != k@ {
                let j = choose|j: int| 0 <= j < s.len() && #[trigger] s[j].0@ == other;
                assert(t[j] == s[j]);
                lemma_key_pos_at(s, j);
                lemma_key_pos_at(t, j);
            }
            if !has_key(s, other) && other != k@ {
                assert forall|j: int| 0 <= j < t.len() implies #[trigger] t[j].0@ != other by {
                    if j < s.len() {
                        assert(t[j] == s[j]);
                    }
                }
            }
        },
    }
}

/// What a removal leaves: nothing under the removed key, the old value under
/// every other key; keys stay unique.
pub proof fn lemma_remove_entry<V>(s: Seq<(String, V)>, k: Seq<char>, other: Seq<char>)
    requires
        keys_unique(s),
    ensures
        keys_unique(remove_entry(s, k)),
        lookup(remove_entry(s, k), k) is None,
        other != k ==> lookup(remove_entry(s, k), other) == lookup(s, other),
{
    let t = remove_entry(s, k);
    match key_pos(s, k) {
        Some(i) => {
            assert forall|a: int| 0 <= a < t.len() implies #[trigger] t[a] == s[if a < i {
                a
            } else {
                a + 1
            }] by {}
            assert forall|a: int, b: int|
                0 <= a < t.len() && 0 <= b < t.len() && a != b implies #[trigger] t[a].0@
                != #[trigger] t[b].0@ by {
                let a1 = if a < i {
                    a
                } else {
                    a + 1
                };
                let b1 = if b < i {
                    b
                } else {
                    b + 1
                };
                assert(t[a] == s[a1] && t[b] == s[b1]);
            }
            assert forall|j: int| 0 <= j < t.len() implies #[trigger] t[j].0@ != k by {
                let j1 = if j < i {
                    j
                } else {
                    j + 1
                };
                assert(t[j] == s[j1]);
            }
            if has_key(s, other) && other != k {
                let j = choose|j: int| 0 <= j < s.len() && #[trigger] s[j].0@ == other;
                lemma_key_pos_at(s, j);
                let j2 = if j < i {
                    j
                } else {
                    j - 1
                };
                assert(t[j2] == s[j]);
                lemma_key_pos_at(t, j2);
            }
            if !has_key(s, other) && other != k {
                assert forall|j: int| 0 <= j < t.len() implies #[trigger] t[j].0@ != other by {
                    let j1 = if j < i {
                        j
                    } else {
                        j + 1
                    };
                    assert(t[j] == s[j1]);
                }
            }
        },
        None => {},
    }
}

/// Entries in insertion order, each key at most once.
pub struct KeyedList<V> {
    entries: Vec<(String, V)>,
}

impl<V> View for KeyedList<V> {
    type V = Seq<(String, V)>;

    closed spec fn view(&self) -> Seq<(String, V)> {
        self.entries@
    }
}

impl<V> KeyedList<V> {
    #[verifier::type_invariant]
    spec fn inv(self) -> bool {
        keys_unique(self.entries@)
    }

    /// An empty list.
    pub fn new() -> (r: Self)
        ensures
            r@ == Seq::<(String, V)>::empty(),
    {
        KeyedList { entries: Vec::new() }
    }

    /// The number of entries.
    pub fn len(&self) -> (n: usize)
        ensures
            n == self@.len(),
    {
        self.entries.len()
    }

    /// Whether there are no entries.
    pub fn is_empty(&self) -> (b: bool)
        ensures
            b == (self@.len() == 0),
    {
        self.entries.len() == 0
    }

    /// The entries, in order.
    pub fn entries(&self) -> (r: &Vec<(String, V)>)
        ensures
            r@ == self@,
            keys_unique(self@),
    {
        proof {
            use_type_invariant(self);
        }
        &self.entries
    }

    /// The position of the entry with key `key`.
    pub fn position(&self, key: &str) -> (r: Option<usize>)
        ensures
            keys_unique(self@),
            match r {
                Some(i) => key_pos(self@, key@) == Some(i as int),
                None => key_pos(self@, key@) is None,
            },
    {
        proof {
            use_type_invariant(self);
        }
        let k = key.to_owned();
        let mut i: usize = 0;
        while i < self.entries.len()
            invariant
                i <= self.entries@.len(),
                k@ == key@,
                keys_unique(self.entries@),
                forall|j: int| 0 <= j < i ==> #[trigger] self.entries@[j].0@ != key@,
            decreases self.entries@.len() - i,
        {
            if self.entries[i].0 == k {
                proof {
                    lemma_key_pos_at(self.entries@, i as int);
                }
                return Some(i);
            }
            i += 1;
        }
        None
    }

    /// Whether some entry has key `key`.
    pub fn contains_key(&self, key: &str) -> (b: bool)
        ensures
            b == has_key(self@, key@),
    {
        self.position(key).is_some()
    }

    /// The value stored under `key`.
    pub fn get(&self, key: &str) -> (r: Option<&V>)
        ensures
            match r {
                Some(v) => lookup(self@, key@) == Some(*v),
                None => lookup(self@, key@) is None,
            },
    {
        match self.position(key) {
            Some(i) => Some(&self.entries[i].1),
            None => None,
        }
    }

    /// Stores `value` under `key`, replacing the value there was.
    pub fn insert(&mut self, key: String, value: V)
        ensures
            final(self)@ == insert_entry(old(self)@, key, value),
    {
        proof {
            use_type_invariant(&*self);
        }
        match self.position(key.as_str()) {
            Some(i) => {
                proof {
                    lemma_insert_entry(self.entries@, key, value, key@);
                }
                let mut es: Vec<(String, V)> = Vec::new();
                std::mem::swap(&mut es, &mut self.entries);
                es.set(i, (key, value));
                self.entries = es;
            },
            None => {
                proof {
                    lemma_insert_entry(self.entries@, key, value, key@);
                }
                let mut es: Vec<(String, V)> = Vec::new();
                std::mem::swap(&mut es, &mut self.entries);
                es.push((key, value));
                self.entries = es;
            },
        }
    }

    /// Removes the entry with key `key` and gives back its value.
    pub fn remove(&mut self, key: &str) -> (r: Option<V>)
        ensures
            final(self)@ == remove_entry(old(self)@, key@),
            r == lookup(old(self)@, key@),
    {
        proof {
            use_type_invariant(&*self);
        }
        match self.position(key) {
            Some(i) => {
                proof {
                    lemma_remove_entry(self.entries@, key@, key@);
                }
                let mut es: Vec<(String, V)> = Vec::new();
                std::mem::swap(&mut es, &mut self.entries);
                let (_, v) = es.remove(i);
                self.entries = es;
                Some(v)
            },
            None => None,
        }
    }
}

} // verus!
