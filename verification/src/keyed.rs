//! Lists of named entries read as maps: the last entry for a name counts.

use vstd::prelude::*;

verus! {

/// The value of the last entry named `name`, if any.
pub open spec fn last_value<V>(s: Seq<(Seq<char>, V)>, name: Seq<char>) -> Option<V>
    decreases s.len(),
{
    if s.len() == 0 {
        None
    } else if s.last().0 == name {
        Some(s.last().1)
    } else {
        last_value(s.drop_last(), name)
    }
}

/// The entries of `s` that are not named `name`, in order.
pub open spec fn without_key<V>(s: Seq<(Seq<char>, V)>, name: Seq<char>) -> Seq<(Seq<char>, V)>
    decreases s.len(),
{
    if s.len() == 0 {
        s
    } else if s.last().0 == name {
        without_key(s.drop_last(), name)
    } else {
        without_key(s.drop_last(), name).push(s.last())
    }
}

/// Dropping the entries named `name` leaves no value for it and the others'
/// values as they were.
pub proof fn lemma_without_key<V>(s: Seq<(Seq<char>, V)>, name: Seq<char>, other: Seq<char>)
    ensures
        last_value(without_key(s, name), other) == if other == name { None } else { last_value(s, other) },
    decreases s.len(),
{
    if s.len() > 0 {
        lemma_without_key(s.drop_last(), name, other);
        let w = without_key(s.drop_last(), name);
        if s.last().0 != name {
            assert(w.push(s.last()).drop_last() =~= w);
        }
    }
}

/// Adding an entry after dropping the others of its name sets that name's
/// value and keeps the others'.
pub proof fn lemma_put_key<V>(s: Seq<(Seq<char>, V)>, name: Seq<char>, v: V, other: Seq<char>)
    ensures
        last_value(without_key(s, name).push((name, v)), other) == if other == name { Some(v) } else { last_value(s, other) },
{
    let w = without_key(s, name);
    assert(w.push((name, v)).drop_last() =~= w);
    lemma_without_key(s, name, other);
}

/// A name has a value exactly when some entry carries it.
pub proof fn lemma_last_value_some<V>(s: Seq<(Seq<char>, V)>, name: Seq<char>)
    ensures
        last_value(s, name) is Some <==> exists|i: int| 0 <= i < s.len() && #[trigger] s[i].0 == name,
    decreases s.len(),
{
    if s.len() > 0 {
        lemma_last_value_some(s.drop_last(), name);
        if s.last().0 == name {
            assert(s[s.len() - 1].0 == name);
        } else {
            assert forall|i: int| 0 <= i < s.len() && #[trigger] s[i].0 == name implies 0 <= i < s.len() - 1
                && s.drop_last()[i].0 == name by {}
            assert forall|i: int| 0 <= i < s.len() - 1 && #[trigger] s.drop_last()[i].0 == name implies s[i].0
                == name by {}
        }
    }
}

} // verus!
