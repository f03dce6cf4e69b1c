//! Header fields of ICAP and HTTP messages: an ordered map from lower-case
//! names to values, in which a name occurs at most once.

use vstd::prelude::*;
use crate::text::{ascii_lower, ascii_lowercase};

verus! {

/// A header field: its lower-case name and its value.
pub type FieldView = (Seq<char>, Seq<char>);

/// The index of the first field named `n` at or after `i`.
pub open spec fn name_index_from(s: Seq<FieldView>, n: Seq<char>, i: int) -> Option<int>
    decreases s.len() - i,
{
    if i < 0 || i >= s.len() {
        None
    } else if s[i].0 == n {
        Some(i)
    } else {
        name_index_from(s, n, i + 1)
    }
}

/// The index of the field named `n`, if there is one.
pub open spec fn name_index(s: Seq<FieldView>, n: Seq<char>) -> Option<int> {
    name_index_from(s, n, 0)
}

/// The fields after setting `n` to `v`: an existing field keeps its place and
/// takes the new value; a new one goes last.
pub open spec fn map_insert(s: Seq<FieldView>, n: Seq<char>, v: Seq<char>) -> Seq<FieldView> {
    match name_index(s, n) {
        Some(i) => s.update(i, (n, v)),
        None => s.push((n, v)),
    }
}

/// The fields after `HeaderMap::insert(name, value)`: the name is taken in
/// ASCII lower case.
pub open spec fn set_field(s: Seq<FieldView>, name: Seq<char>, value: Seq<char>) -> Seq<FieldView> {
    map_insert(s, ascii_lower(name), value)
}

/// The value of the field named `n`.
pub open spec fn map_get(s: Seq<FieldView>, n: Seq<char>) -> Option<Seq<char>> {
    match name_index(s, n) {
        Some(i) => Some(s[i].1),
        None => None,
    }
}

pub proof fn lemma_name_index_from(s: Seq<FieldView>, n: Seq<char>, i: int)
    requires
        0 <= i,
    ensures
        name_index_from(s, n, i) matches Some(k) ==> i <= k < s.len() && s[k].0 == n && forall|
            j: int,
        | i <= j < k ==> #[trigger] s[j].0 != n,
        name_index_from(s, n, i) is None ==> forall|j: int| i <= j < s.len() ==> #[trigger] s[j].0
            != n,
    decreases s.len() - i,
{
    if i < s.len() && s[i].0 != n {
        lemma_name_index_from(s, n, i + 1);
    }
}

/// `k` is the index of `n` when the field there is named `n` and none before it is.
pub proof fn lemma_name_index_at(s: Seq<FieldView>, n: Seq<char>, i: int, k: int)
    requires
        0 <= i <= k < s.len(),
        s[k].0 == n,
        forall|j: int| i <= j < k ==> #[trigger] s[j].0 != n,
    ensures
        name_index_from(s, n, i) == Some(k),
    decreases k - i,
{
    if i < k {
        lemma_name_index_at(s, n, i + 1, k);
    }
}

/// No field named `n` when no field has that name.
pub proof fn lemma_name_index_none(s: Seq<FieldView>, n: Seq<char>, i: int)
    requires
        0 <= i,
        forall|j: int| i <= j < s.len() ==> #[trigger] s[j].0 != n,
    ensures
        name_index_from(s, n, i) is None,
    decreases s.len() - i,
{
    if i < s.len() {
        lemma_name_index_none(s, n, i + 1);
    }
}

/// A read gives back what the last write of that name wrote, and a write
/// leaves the value of every other name as it was.
pub proof fn lemma_get_insert(s: Seq<FieldView>, n: Seq<char>, v: Seq<char>, m: Seq<char>)
    ensures
        map_get(map_insert(s, n, v), n) == Some(v),
        m != n ==> map_get(map_insert(s, n, v), m) == map_get(s, m),
{
    lemma_name_index_from(s, n, 0);
    lemma_name_index_from(s, m, 0);
    let t = map_insert(s, n, v);
    match name_index(s, n) {
        Some(i) => {
            lemma_name_index_at(t, n, 0, i);
            if m != n {
                match name_index(s, m) {
                    Some(k) => lemma_name_index_at(t, m, 0, k),
                    None => lemma_name_index_none(t, m, 0),
                }
            }
        },
        None => {
            lemma_name_index_at(t, n, 0, s.len() as int);
            if m != n {
                match name_index(s, m) {
                    Some(k) => lemma_name_index_at(t, m, 0, k),
                    None => lemma_name_index_none(t, m, 0),
                }
            }
        },
    }
}

/// Setting a field never makes the map shorter, and adds at most one field.
pub proof fn lemma_insert_len(s: Seq<FieldView>, n: Seq<char>, v: Seq<char>)
    ensures
        map_insert(s, n, v).len() == if name_index(s, n) is Some { s.len() } else { s.len() + 1 },
{
    lemma_name_index_from(s, n, 0);
}

/// Header fields, in the order in which their names were first set.
#[derive(Clone, Debug)]
pub struct HeaderMap {
    entries: Vec<(String, String)>,
}

impl View for HeaderMap {
    type V = Seq<FieldView>;

    closed spec fn view(&self) -> Seq<FieldView> {
        Seq::new(self.entries@.len(), |i: int| (self.entries@[i].0@, self.entries@[i].1@))
    }
}

impl HeaderMap {
    /// An empty map.
    pub fn new() -> (r: Self)
        ensures
            r@ == Seq::<FieldView>::empty(),
    {
        let r = HeaderMap { entries: Vec::new() };
        proof {
            assert(r@ =~= Seq::<FieldView>::empty());
        }
        r
    }

    /// A copy of the map.
    pub fn copy(&self) -> (r: Self)
        ensures
            r@ == self@,
    {
        let mut entries: Vec<(String, String)> = Vec::new();
        let mut i: usize = 0;
        while i < self.entries.len()
            invariant
                i <= self.entries@.len(),
                entries@.len() == i,
                forall|j: int| 0 <= j < i ==> #[trigger] entries@[j].0@ == self.entries@[j].0@ && entries@[j].1@
                    == self.entries@[j].1@,
            decreases self.entries@.len() - i,
        {
            let e = &self.entries[i];
            entries.push((e.0.clone(), e.1.clone()));
            i = i + 1;
        }
        let r = HeaderMap { entries };
        proof {
            assert(r@ =~= self@);
        }
        r
    }

    /// Number of fields.
    pub fn len(&self) -> (r: usize)
        ensures
            r == self@.len(),
    {
        self.entries.len()
    }

    pub fn is_empty(&self) -> (r: bool)
        ensures
            r == (self@.len() == 0),
    {
        self.entries.len() == 0
    }

    /// The name and value of the field at `i`.
    pub fn entry(&self, i: usize) -> (r: (&String, &String))
        requires
            i < self@.len(),
        ensures
            r.0@ == self@[i as int].0,
            r.1@ == self@[i as int].1,
    {
        let e = &self.entries[i];
        (&e.0, &e.1)
    }

    fn find(&self, key: &String) -> (r: Option<usize>)
        ensures
            r matches Some(i) ==> name_index(self@, key@) == Some(i as int) && i < self.entries@.len(),
            self@.len() == self.entries@.len(),
            r is None ==> name_index(self@, key@) is None,
    {
        let mut i: usize = 0;
        while i < self.entries.len()
            invariant
                i <= self@.len(),
                self@.len() == self.entries@.len(),
                forall|j: int| 0 <= j < i ==> #[trigger] self@[j].0 != key@,
            decreases self@.len() - i,
        {
            if self.entries[i].0 == *key {
                proof {
                    lemma_name_index_at(self@, key@, 0, i as int);
                }
                return Some(i);
            }
            i = i + 1;
        }
        proof {
            lemma_name_index_none(self@, key@, 0);
        }
        None
    }

    /// Sets the field `name` (compared without regard to ASCII case, stored in
    /// lower case) to `value`.
    pub fn insert(&mut self, name: &str, value: &str)
        ensures
            final(self)@ == set_field(old(self)@, name@, value@),
    {
        let key = ascii_lowercase(name);
        let val = String::from_str(value);
        match self.find(&key) {
            Some(i) => {
                self.entries.set(i, (key, val));
                proof {
                    assert(self@ =~= map_insert(old(self)@, ascii_lower(name@), value@));
                }
            },
            None => {
                self.entries.push((key, val));
                proof {
                    assert(self@ =~= map_insert(old(self)@, ascii_lower(name@), value@));
                }
            },
        }
    }

    /// The value of the field `name` (compared without regard to ASCII case).
    pub fn get(&self, name: &str) -> (r: Option<&String>)
        ensures
            match map_get(self@, ascii_lower(name@)) {
                Some(v) => r matches Some(s) && s@ == v,
                None => r is None,
            },
    {
        let key = ascii_lowercase(name);
        match self.find(&key) {
            Some(i) => Some(&self.entries[i].1),
            None => None,
        }
    }

    /// True when a field `name` (compared without regard to ASCII case) is set.
    pub fn contains_key(&self, name: &str) -> (r: bool)
        ensures
            r == map_get(self@, ascii_lower(name@)) is Some,
    {
        let key = ascii_lowercase(name);
        self.find(&key).is_some()
    }
}

} // verus!
