//! An insertion-ordered collection keyed by player id, in which no id occurs
//! twice. Its mathematical content is a sequence of `(id, value)` pairs.

use vstd::prelude::*;

verus! {

/// Some entry of `es` carries `id`.
pub open spec fn has_id<V>(es: Seq<(Seq<char>, V)>, id: Seq<char>) -> bool {
    exists|i: int| 0 <= i < es.len() && (#[trigger] es[i]).0 == id
}

/// An index at which `es` carries `id`, where there is one.
pub open spec fn index_of<V>(es: Seq<(Seq<char>, V)>, id: Seq<char>) -> int {
    choose|i: int| 0 <= i < es.len() && (#[trigger] es[i]).0 == id
}

/// The value stored under `id`, if any.
pub open spec fn lookup<V>(es: Seq<(Seq<char>, V)>, id: Seq<char>) -> Option<V> {
    if has_id(es, id) {
        Some(es[index_of(es, id)].1)
    } else {
        None
    }
}

/// No two entries of `es` carry the same id.
pub open spec fn distinct_ids<V>(es: Seq<(Seq<char>, V)>) -> bool {
    forall|i: int, j: int|
        0 <= i < j < es.len() ==> (#[trigger] es[i]).0 != (#[trigger] es[j]).0
}

/// `es` with `value` stored under `id`: in place where `id` is present, at
/// the end where it is not.
pub open spec fn with_entry<V>(es: Seq<(Seq<char>, V)>, id: Seq<char>, value: V) -> Seq<
    (Seq<char>, V),
> {
    if has_id(es, id) {
        es.update(index_of(es, id), (id, value))
    } else {
        es.push((id, value))
    }
}

/// `es` without the entry for `id`; the other entries keep their order.
pub open spec fn without_id<V>(es: Seq<(Seq<char>, V)>, id: Seq<char>) -> Seq<(Seq<char>, V)> {
    if has_id(es, id) {
        es.remove(index_of(es, id))
    } else {
        es
    }
}

/// The ids of `es`, in order.
pub open spec fn ids_of<V>(es: Seq<(Seq<char>, V)>) -> Seq<Seq<char>> {
    Seq::new(es.len(), |i: int| es[i].0)
}

/// The contents of a vector of ids.
pub open spec fn texts_of(ids: Seq<String>) -> Seq<Seq<char>> {
    Seq::new(ids.len(), |i: int| ids[i]@)
}

/// The values of `es`, in order.
pub open spec fn values_of<V>(es: Seq<(Seq<char>, V)>) -> Seq<V> {
    Seq::new(es.len(), |i: int| es[i].1)
}

/// In a sequence with distinct ids, the index of an id is the one place
/// where it occurs.
pub proof fn lemma_index_of_unique<V>(es: Seq<(Seq<char>, V)>, i: int)
    requires
        distinct_ids(es),
        0 <= i < es.len(),
    ensures
        has_id(es, es[i].0),
        index_of(es, es[i].0) == i,
{
    let id = es[i].0;
    assert(has_id(es, id));
    let j = index_of(es, id);
    assert(0 <= j < es.len() && es[j].0 == id);
    if j < i {
        assert(es[j].0 != es[i].0);
    } else if i < j {
        assert(es[i].0 != es[j].0);
    }
}

/// Storing a value keeps the ids distinct, makes that value the one found
/// under its id, and leaves every other id's value as it was.
pub proof fn lemma_with_entry<V>(es: Seq<(Seq<char>, V)>, id: Seq<char>, value: V)
    requires
        distinct_ids(es),
    ensures
        distinct_ids(with_entry(es, id, value)),
        lookup(with_entry(es, id, value), id) == Some(value),
        forall|other: Seq<char>|
            other != id ==> lookup(with_entry(es, id, value), other) == lookup(es, other),
        with_entry(es, id, value).len() == if has_id(es, id) {
            es.len()
        } else {
            es.len() + 1
        },
{
    let after = with_entry(es, id, value);
    let at: int = if has_id(es, id) {
        index_of(es, id)
    } else {
        es.len() as int
    };
    assert(0 <= at < after.len() && after[at] == (id, value));
    assert forall|i: int, j: int| 0 <= i < j < after.len() implies (#[trigger] after[i]).0 != (
    #[trigger] after[j]).0 by {
        if has_id(es, id) {
            assert(after[i].0 == es[i].0 && after[j].0 == es[j].0);
        } else {
            if j == es.len() {
                assert(after[i] == es[i]);
                if es[i].0 == id {
                    assert(has_id(es, id));
                }
            } else {
                assert(after[i] == es[i] && after[j] == es[j]);
            }
        }
    }
    lemma_index_of_unique(after, at);
    assert forall|other: Seq<char>| other != id implies lookup(after, other) == lookup(
        es,
        other,
    ) by {
        if has_id(es, other) {
            let k = index_of(es, other);
            assert(k != at);
            assert(after[k] == es[k]);
            lemma_index_of_unique(after, k);
        } else if has_id(after, other) {
            let k = index_of(after, other);
            assert(k != at);
            assert(after[k] == es[k]);
            assert(has_id(es, other));
        }
    }
}

/// Removing an id keeps the ids distinct, leaves nothing under that id, and
/// leaves every other id's value as it was.
pub proof fn lemma_without_id<V>(es: Seq<(Seq<char>, V)>, id: Seq<char>)
    requires
        distinct_ids(es),
    ensures
        distinct_ids(without_id(es, id)),
        !has_id(without_id(es, id), id),
        forall|other: Seq<char>|
            other != id ==> lookup(without_id(es, id), other) == lookup(es, other),
        without_id(es, id).len() == if has_id(es, id) {
            es.len() - 1
        } else {
            es.len() as int
        },
{
    let after = without_id(es, id);
    if has_id(es, id) {
        let at = index_of(es, id);
        assert forall|i: int| 0 <= i < after.len() implies #[trigger] after[i] == es[if i < at {
            i
        } else {
            i + 1
        }] by {}
        assert forall|i: int, j: int| 0 <= i < j < after.len() implies (#[trigger] after[i]).0
            != (#[trigger] after[j]).0 by {
            let a = if i < at {
                i
            } else {
                i + 1
            };
            let b = if j < at {
                j
            } else {
                j + 1
            };
            assert(after[i] == es[a] && after[j] == es[b]);
            assert(es[a].0 != es[b].0);
        }
        if has_id(after, id) {
            let k = index_of(after, id);
            let a = if k < at {
                k
            } else {
                k + 1
            };
            assert(after[k] == es[a]);
            if a < at {
                assert(es[a].0 != es[at].0);
            } else {
                assert(es[at].0 != es[a].0);
            }
        }
        assert forall|other: Seq<char>| other != id implies lookup(after, other) == lookup(
            es,
            other,
        ) by {
            if has_id(es, other) {
                let k = index_of(es, other);
                assert(k != at);
                let a = if k < at {
                    k
                } else {
                    k - 1
                };
                assert(after[a] == es[k]);
                lemma_index_of_unique(after, a);
            } else if has_id(after, other) {
                let k = index_of(after, other);
                let a = if k < at {
                    k
                } else {
                    k + 1
                };
                assert(after[k] == es[a]);
                assert(has_id(es, other));
            }
        }
    }
}

/// An insertion-ordered map from player id to `V`.
pub struct Roster<V> {
    ids: Vec<String>,
    values: Vec<V>,
}

impl<V: View> View for Roster<V> {
    type V = Seq<(Seq<char>, V::V)>;

    closed spec fn view(&self) -> Seq<(Seq<char>, V::V)> {
        Seq::new(self.ids@.len(), |i: int| (self.ids@[i]@, self.values@[i]@))
    }
}

impl<V: View> Roster<V> {
    /// The two columns have one length and no id occurs twice.
    pub closed spec fn well_formed(&self) -> bool {
        &&& self.ids@.len() == self.values@.len()
        &&& forall|i: int, j: int|
            0 <= i < j < self.ids@.len() ==> (#[trigger] self.ids@[i])@ != (#[trigger] self.ids@[j])@
    }

    /// A well-formed roster holds distinct ids.
    pub proof fn lemma_distinct(&self)
        requires
            self.well_formed(),
        ensures
            distinct_ids(self@),
    {
        assert forall|i: int, j: int| 0 <= i < j < self@.len() implies (#[trigger] self@[i]).0 != (
        #[trigger] self@[j]).0 by {
            assert(self.ids@[i]@ != self.ids@[j]@);
        }
    }

    /// The empty roster.
    pub fn new() -> (roster: Self)
        ensures
            roster.well_formed(),
            roster@ == Seq::<(Seq<char>, V::V)>::empty(),
    {
        let roster = Roster { ids: Vec::new(), values: Vec::new() };
        assert(roster@ =~= Seq::<(Seq<char>, V::V)>::empty());
        roster
    }

    /// The number of entries.
    pub fn len(&self) -> (n: usize)
        requires
            self.well_formed(),
        ensures
            n == self@.len(),
    {
        self.ids.len()
    }

    /// The index at which `id` is stored, if it is present.
    pub fn position(&self, id: &String) -> (found: Option<usize>)
        requires
            self.well_formed(),
        ensures
            found is Some <==> has_id(self@, id@),
            found matches Some(i) ==> i < self@.len() && self@[i as int].0 == id@ && index_of(
                self@,
                id@,
            ) == i,
    {
        let mut i: usize = 0;
        while i < self.ids.len()
            invariant
                self.well_formed(),
                i <= self.ids@.len(),
                forall|k: int| 0 <= k < i ==> (#[trigger] self@[k]).0 != id@,
            decreases self.ids@.len() - i,
        {
            if self.ids[i] == *id {
                proof {
                    assert(self@[i as int].0 == id@);
                    lemma_index_of_unique(self@, i as int);
                }
                return Some(i);
            }
            i += 1;
        }
        None
    }

    /// The id stored at index `i`.
    pub fn id_at(&self, i: usize) -> (id: &String)
        requires
            self.well_formed(),
            i < self@.len(),
        ensures
            id@ == self@[i as int].0,
    {
        &self.ids[i]
    }

    /// The value stored at index `i`.
    pub fn value_at(&self, i: usize) -> (value: &V)
        requires
            self.well_formed(),
            i < self@.len(),
        ensures
            value@ == self@[i as int].1,
    {
        &self.values[i]
    }

    /// Replaces the value stored at index `i`.
    pub fn set_value(&mut self, i: usize, value: V)
        requires
            old(self).well_formed(),
            i < old(self)@.len(),
        ensures
            final(self).well_formed(),
            final(self)@ == old(self)@.update(i as int, (old(self)@[i as int].0, value@)),
    {
        self.values.set(i, value);
        proof {
            assert(self@ =~= old(self)@.update(i as int, (old(self)@[i as int].0, value@)));
            assert forall|a: int, b: int| 0 <= a < b < self@.len() implies (#[trigger] self@[a]).0
                != (#[trigger] self@[b]).0 by {
                assert(old(self)@[a].0 != old(self)@[b].0);
            }
        }
    }

    /// The value stored under `id`, if any.
    pub fn get(&self, id: &String) -> (value: Option<&V>)
        requires
            self.well_formed(),
        ensures
            value is Some <==> has_id(self@, id@),
            value matches Some(v) ==> lookup(self@, id@) == Some(v@),
    {
        match self.position(id) {
            Some(i) => Some(&self.values[i]),
            None => None,
        }
    }

    /// Stores `value` under `id`: in place where `id` is present, at the end
    /// where it is not.
    pub fn insert(&mut self, id: String, value: V)
        requires
            old(self).well_formed(),
        ensures
            final(self).well_formed(),
            final(self)@ == with_entry(old(self)@, id@, value@),
    {
        proof {
            lemma_with_entry(self@, id@, value@);
        }
        match self.position(&id) {
            Some(i) => {
                self.values.set(i, value);
                assert(self@ =~= with_entry(old(self)@, id@, value@));
            },
            None => {
                assert forall|k: int| 0 <= k < self.ids@.len() implies (#[trigger] self.ids@[k])@
                    != id@ by {
                    assert(self@[k].0 == self.ids@[k]@);
                }
                self.ids.push(id);
                self.values.push(value);
                assert(self@ =~= with_entry(old(self)@, id@, value@));
            },
        }
    }

    /// Removes the entry for `id`, if there is one, and says whether there was.
    pub fn remove(&mut self, id: &String) -> (removed: bool)
        requires
            old(self).well_formed(),
        ensures
            final(self).well_formed(),
            final(self)@ == without_id(old(self)@, id@),
            removed == has_id(old(self)@, id@),
    {
        proof {
            lemma_without_id(self@, id@);
        }
        match self.position(id) {
            Some(i) => {
                self.ids.remove(i);
                self.values.remove(i);
                assert(self@ =~= without_id(old(self)@, id@));
                true
            },
            None => false,
        }
    }

    /// The value stored at index `i`, to be changed in place.
    pub fn value_at_mut(&mut self, i: usize) -> (value: &mut V)
        requires
            old(self).well_formed(),
            i < old(self)@.len(),
        ensures
            value@ == old(self)@[i as int].1,
            final(self).well_formed(),
            final(self)@ == old(self)@.update(i as int, (old(self)@[i as int].0, final(value)@)),
    {
        &mut self.values[i]
    }

    /// A copy of the ids, in order.
    pub fn ids(&self) -> (ids: Vec<String>)
        requires
            self.well_formed(),
        ensures
            ids@.len() == self@.len(),
            forall|i: int| 0 <= i < ids@.len() ==> (#[trigger] ids@[i])@ == self@[i].0,
    {
        let mut ids: Vec<String> = Vec::new();
        let mut i: usize = 0;
        while i < self.ids.len()
            invariant
                self.well_formed(),
                i <= self.ids@.len(),
                ids@.len() == i,
                forall|k: int| 0 <= k < i ==> (#[trigger] ids@[k])@ == self@[k].0,
            decreases self.ids@.len() - i,
        {
            ids.push(self.ids[i].clone());
            i += 1;
        }
        ids
    }
}

} // verus!
