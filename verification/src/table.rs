//! Name-to-payload tables: the macro table and the variable store. Keys
//! are unique and overwritable; lookup never mutates the table.

use vstd::prelude::*;
use crate::diag::ErrorKind;

verus! {

broadcast use vstd::std_specs::vec::group_vec_axioms;

/// Whether two words hold the same text.
pub fn chars_eq(a: &Vec<char>, b: &Vec<char>) -> (r: bool)
    ensures
        r == (a@ == b@),
{
    if a.len() != b.len() {
        return false;
    }
    let mut i: usize = 0;
    while i < a.len()
        invariant
            i <= a.len(),
            a@.len() == b@.len(),
            forall|k: int| 0 <= k < i ==> a@[k] == b@[k],
        decreases a.len() - i,
    {
        if a[i] != b[i] {
            return false;
        }
        i = i + 1;
    }
    proof {
        assert(a@ =~= b@);
    }
    true
}

/// A mapping from names to payloads, stored as an association list with
/// unique keys.
pub struct Table<P> {
    entries: Vec<(Vec<char>, P)>,
}

/// The mapping an association list stands for; a later entry for a key
/// overrides an earlier one, though unique keys make that immaterial.
pub open spec fn map_of<P: DeepView>(es: Seq<(Vec<char>, P)>) -> Map<Seq<char>, <P as DeepView>::V>
    decreases es.len(),
{
    if es.len() == 0 {
        Map::empty()
    } else {
        map_of(es.drop_last()).insert(es.last().0@, es.last().1.deep_view())
    }
}

/// A key is in the mapping exactly when some entry holds it.
proof fn lemma_map_of_contains<P: DeepView>(es: Seq<(Vec<char>, P)>, k: Seq<char>)
    ensures
        map_of(es).contains_key(k) <==> exists|i: int| 0 <= i < es.len() && es[i].0@ == k,
    decreases es.len(),
{
    if es.len() > 0 {
        lemma_map_of_contains(es.drop_last(), k);
        if es.last().0@ == k {
            assert(es[es.len() - 1].0@ == k);
        } else if map_of(es).contains_key(k) {
            let i = choose|i: int| 0 <= i < es.drop_last().len() && es.drop_last()[i].0@ == k;
            assert(es[i].0@ == k);
        } else {
            assert forall|i: int| 0 <= i < es.len() implies es[i].0@ != k by {
                if i < es.len() - 1 {
                    assert(es.drop_last()[i].0@ == es[i].0@);
                }
            }
        }
    }
}

/// With unique keys, the mapping holds each entry's own payload.
proof fn lemma_map_of_value<P: DeepView>(es: Seq<(Vec<char>, P)>, i: int)
    requires
        0 <= i < es.len(),
        forall|a: int, b: int| 0 <= a < b < es.len() ==> es[a].0@ != es[b].0@,
    ensures
        map_of(es).contains_key(es[i].0@),
        map_of(es)[es[i].0@] == es[i].1.deep_view(),
    decreases es.len(),
{
    lemma_map_of_contains(es, es[i].0@);
    if i == es.len() - 1 {
    } else {
        assert forall|a: int, b: int| 0 <= a < b < es.drop_last().len() implies
            es.drop_last()[a].0@ != es.drop_last()[b].0@ by {
            assert(es.drop_last()[a].0@ == es[a].0@ && es.drop_last()[b].0@ == es[b].0@);
        }
        assert(es.drop_last()[i] == es[i]);
        lemma_map_of_value(es.drop_last(), i);
        assert(es[i].0@ != es.last().0@);
    }
}

impl<P: DeepView> Table<P> {
    /// Unique keys: no two entries hold the same name.
    pub closed spec fn inv(&self) -> bool {
        forall|a: int, b: int| 0 <= a < b < self.entries@.len()
            ==> self.entries@[a].0@ != self.entries@[b].0@
    }

    pub fn new() -> (t: Self)
        ensures
            t.inv(),
            t@ == Map::<Seq<char>, <P as DeepView>::V>::empty(),
    {
        Table { entries: Vec::new() }
    }

    /// The index of the entry holding `name`, if any.
    fn find(&self, name: &Vec<char>) -> (r: Option<usize>)
        requires
            self.inv(),
        ensures
            match r {
                Some(i) => i < self.entries@.len() && self.entries@[i as int].0@ == name@
                    && self@.contains_key(name@)
                    && self@[name@] == self.entries@[i as int].1.deep_view(),
                None => !self@.contains_key(name@),
            },
    {
        let mut i: usize = 0;
        while i < self.entries.len()
            invariant
                self.inv(),
                i <= self.entries@.len(),
                forall|k: int| 0 <= k < i ==> self.entries@[k].0@ != name@,
            decreases self.entries@.len() - i,
        {
            if chars_eq(&self.entries[i].0, name) {
                proof {
                    lemma_map_of_value(self.entries@, i as int);
                }
                return Some(i);
            }
            i = i + 1;
        }
        proof {
            lemma_map_of_contains(self.entries@, name@);
        }
        None
    }

    /// The payload bound to `name`, or `UndefinedName` when the name is
    /// not bound. Performs no mutation.
    pub fn lookup<'a>(&'a self, name: &Vec<char>) -> (r: Result<&'a P, ErrorKind>)
        requires
            self.inv(),
        ensures
            match r {
                Ok(p) => self@.contains_key(name@) && p.deep_view() == self@[name@],
                Err(k) => !self@.contains_key(name@) && k == ErrorKind::UndefinedName,
            },
    {
        match self.find(name) {
            Some(i) => Ok(&self.entries[i].1),
            None => Err(ErrorKind::UndefinedName),
        }
    }

    /// Binds `name` to `payload`: inserts a new entry or overwrites the
    /// one already holding the name. No arity checking happens at
    /// definition time.
    pub fn define(&mut self, name: Vec<char>, payload: P)
        requires
            old(self).inv(),
        ensures
            final(self).inv(),
            final(self)@ == old(self)@.insert(name@, payload.deep_view()),
    {
        let found = self.find(&name);
        match found {
            Some(i) => {
                let ghost es0 = self.entries@;
                let _ = self.entries.remove(i);
                self.entries.push((name, payload));
                proof {
                    lemma_map_remove_then_push(es0, i as int, self.entries@.last());
                }
            }
            None => {
                let ghost es0 = self.entries@;
                self.entries.push((name, payload));
                proof {
                    lemma_map_of_contains(es0, self.entries@.last().0@);
                    assert(self.entries@.drop_last() =~= es0);
                }
            }
        }
    }

    /// The number of bound names.
    pub fn len(&self) -> (n: usize)
        requires
            self.inv(),
        ensures
            n == self@.dom().len(),
    {
        proof {
            lemma_map_of_dom_len(self.entries@);
        }
        self.entries.len()
    }
}

impl<P: DeepView> View for Table<P> {
    type V = Map<Seq<char>, <P as DeepView>::V>;

    closed spec fn view(&self) -> Map<Seq<char>, <P as DeepView>::V> {
        map_of(self.entries@)
    }
}

/// With unique keys, the mapping's domain has one name per entry.
proof fn lemma_map_of_dom_len<P: DeepView>(es: Seq<(Vec<char>, P)>)
    requires
        forall|a: int, b: int| 0 <= a < b < es.len() ==> es[a].0@ != es[b].0@,
    ensures
        map_of(es).dom().finite(),
        map_of(es).dom().len() == es.len(),
    decreases es.len(),
{
    if es.len() > 0 {
        assert forall|a: int, b: int| 0 <= a < b < es.drop_last().len() implies
            es.drop_last()[a].0@ != es.drop_last()[b].0@ by {
            assert(es.drop_last()[a].0@ == es[a].0@ && es.drop_last()[b].0@ == es[b].0@);
        }
        lemma_map_of_dom_len(es.drop_last());
        lemma_map_of_contains(es.drop_last(), es.last().0@);
        assert forall|i: int| 0 <= i < es.drop_last().len() implies
            es.drop_last()[i].0@ != es.last().0@ by {
            assert(es.drop_last()[i].0@ == es[i].0@);
        }
        assert(!map_of(es.drop_last()).contains_key(es.last().0@));
    }
}

/// Overwriting the entry that holds a key, by removing it and pushing a
/// fresh entry for the same key, inserts into the mapping.
proof fn lemma_map_remove_then_push<P: DeepView>(
    es: Seq<(Vec<char>, P)>,
    i: int,
    e: (Vec<char>, P),
)
    requires
        0 <= i < es.len(),
        es[i].0@ == e.0@,
        forall|a: int, b: int| 0 <= a < b < es.len() ==> es[a].0@ != es[b].0@,
    ensures
        map_of(es.remove(i).push(e)) == map_of(es).insert(e.0@, e.1.deep_view()),
        forall|a: int, b: int| 0 <= a < b < es.remove(i).push(e).len()
            ==> es.remove(i).push(e)[a].0@ != es.remove(i).push(e)[b].0@,
{
    assert(es.remove(i).push(e).drop_last() =~= es.remove(i));
    assert(map_of(es.remove(i).push(e))
        == map_of(es.remove(i)).insert(e.0@, e.1.deep_view()));
    lemma_map_of_remove(es, i);
    assert(map_of(es.remove(i)).insert(e.0@, e.1.deep_view())
        =~= map_of(es).insert(e.0@, e.1.deep_view()));
    assert forall|a: int, b: int| 0 <= a < b < es.remove(i).push(e).len() implies
        es.remove(i).push(e)[a].0@ != es.remove(i).push(e)[b].0@ by {
        let r = es.remove(i).push(e);
        if b < r.len() - 1 {
            let a0 = if a < i { a } else { a + 1 };
            let b0 = if b < i { b } else { b + 1 };
            assert(r[a] == es[a0] && r[b] == es[b0]);
        } else {
            let a0 = if a < i { a } else { a + 1 };
            assert(r[a] == es[a0]);
            assert(a0 != i);
        }
    }
}

/// Removing the only entry that holds a key removes the key from the
/// mapping.
proof fn lemma_map_of_remove<P: DeepView>(es: Seq<(Vec<char>, P)>, i: int)
    requires
        0 <= i < es.len(),
        forall|a: int, b: int| 0 <= a < b < es.len() ==> es[a].0@ != es[b].0@,
    ensures
        map_of(es.remove(i)) == map_of(es).remove(es[i].0@),
    decreases es.len(),
{
    let k = es[i].0@;
    if i == es.len() - 1 {
        assert(es.remove(i) =~= es.drop_last());
        lemma_map_of_contains(es.drop_last(), k);
        assert forall|j: int| 0 <= j < es.drop_last().len() implies
            es.drop_last()[j].0@ != k by {
            assert(es.drop_last()[j].0@ == es[j].0@);
        }
        assert(!map_of(es.drop_last()).contains_key(k));
        assert(map_of(es.drop_last()) =~= map_of(es).remove(k));
    } else {
        assert forall|a: int, b: int| 0 <= a < b < es.drop_last().len() implies
            es.drop_last()[a].0@ != es.drop_last()[b].0@ by {
            assert(es.drop_last()[a].0@ == es[a].0@ && es.drop_last()[b].0@ == es[b].0@);
        }
        assert(es.drop_last()[i] == es[i]);
        lemma_map_of_remove(es.drop_last(), i);
        assert(es.remove(i).drop_last() =~= es.drop_last().remove(i));
        assert(es.remove(i).last() == es.last());
        assert(map_of(es.remove(i))
            == map_of(es.drop_last().remove(i)).insert(es.last().0@, es.last().1.deep_view()));
        assert(es[i].0@ != es.last().0@);
        assert(map_of(es.drop_last()).remove(k).insert(es.last().0@, es.last().1.deep_view())
            =~= map_of(es).remove(k));
    }
}

} // verus!
