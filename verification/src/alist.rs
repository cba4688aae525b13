//! Association lists with string keys, and the finite maps they denote.
//!
//! The reference model of the grid stores its named collections as vectors of
//! `(name, contents)` pairs with pairwise-distinct names.  This module gives
//! such a list its abstraction — a `Map` from the names' character sequences
//! to an abstraction of each entry's contents — together with the lemmas that
//! track the abstraction through lookup, update, insertion and removal.

use vstd::prelude::*;

verus! {

/// The finite map denoted by an association list, abstracting each entry's
/// contents through `f`.
pub open spec fn alist_view<V, A>(l: Seq<(String, V)>, f: spec_fn(V) -> A) -> Map<Seq<char>, A>
    decreases l.len(),
{
    if l.len() == 0 {
        Map::empty()
    } else {
        alist_view(l.drop_last(), f).insert(l.last().0@, f(l.last().1))
    }
}

/// No two entries of the list share a name.
pub open spec fn alist_distinct<V>(l: Seq<(String, V)>) -> bool {
    forall|i: int, j: int| 0 <= i < j < l.len() ==> l[i].0@ != l[j].0@
}

/// Dropping the last entry keeps the names pairwise distinct.
pub proof fn lemma_drop_last_distinct<V>(l: Seq<(String, V)>)
    requires
        alist_distinct(l),
        l.len() > 0,
    ensures
        alist_distinct(l.drop_last()),
{
    assert forall|i: int, j: int|
        0 <= i < j < l.drop_last().len() implies l.drop_last()[i].0@ != l.drop_last()[j].0@ by {
        assert(l.drop_last()[i] == l[i]);
        assert(l.drop_last()[j] == l[j]);
    }
}

/// Each entry of a distinct list is bound in the list's map, to the
/// abstraction of its own contents.
pub proof fn lemma_alist_view_index<V, A>(l: Seq<(String, V)>, f: spec_fn(V) -> A, i: int)
    requires
        alist_distinct(l),
        0 <= i < l.len(),
    ensures
        alist_view(l, f).dom().contains(l[i].0@),
        alist_view(l, f)[l[i].0@] == f(l[i].1),
    decreases l.len(),
{
    if i < l.len() - 1 {
        lemma_drop_last_distinct(l);
        lemma_alist_view_index(l.drop_last(), f, i);
        assert(l.drop_last()[i] == l[i]);
        assert(l[i].0@ != l.last().0@);
    }
}

/// A name under which no entry stands is not in the list's map.
pub proof fn lemma_alist_view_absent<V, A>(l: Seq<(String, V)>, f: spec_fn(V) -> A, name: Seq<char>)
    requires
        forall|i: int| 0 <= i < l.len() ==> l[i].0@ != name,
    ensures
        !alist_view(l, f).dom().contains(name),
    decreases l.len(),
{
    if l.len() > 0 {
        assert forall|i: int| 0 <= i < l.drop_last().len() implies l.drop_last()[i].0@ != name by {
            assert(l.drop_last()[i] == l[i]);
        }
        lemma_alist_view_absent(l.drop_last(), f, name);
        assert(l.last() == l[l.len() - 1]);
    }
}

/// Replacing entry `i` by a pair with the same name rebinds that one name in
/// the list's map and touches nothing else.
pub proof fn lemma_alist_view_update<V, A>(
    l: Seq<(String, V)>,
    f: spec_fn(V) -> A,
    i: int,
    p: (String, V),
)
    requires
        alist_distinct(l),
        0 <= i < l.len(),
        p.0@ == l[i].0@,
    ensures
        alist_view(l.update(i, p), f) =~= alist_view(l, f).insert(l[i].0@, f(p.1)),
    decreases l.len(),
{
    let l2 = l.update(i, p);
    if i == l.len() - 1 {
        assert(l2.drop_last() =~= l.drop_last());
        assert(l2.last() == p);
    } else {
        lemma_drop_last_distinct(l);
        assert(l2.drop_last() =~= l.drop_last().update(i, p));
        assert(l.drop_last()[i] == l[i]);
        lemma_alist_view_update(l.drop_last(), f, i, p);
        assert(l2.last() == l.last());
        assert(l[i].0@ != l.last().0@);
    }
}

/// Appending an entry binds its name in the list's map.
pub proof fn lemma_alist_view_push<V, A>(l: Seq<(String, V)>, f: spec_fn(V) -> A, p: (String, V))
    ensures
        alist_view(l.push(p), f) =~= alist_view(l, f).insert(p.0@, f(p.1)),
{
    assert(l.push(p).drop_last() =~= l);
    assert(l.push(p).last() == p);
}

/// Removing entry `i` of a distinct list unbinds exactly its name.
pub proof fn lemma_alist_view_remove<V, A>(l: Seq<(String, V)>, f: spec_fn(V) -> A, i: int)
    requires
        alist_distinct(l),
        0 <= i < l.len(),
    ensures
        alist_view(l.remove(i), f) =~= alist_view(l, f).remove(l[i].0@),
    decreases l.len(),
{
    let l2 = l.remove(i);
    if i == l.len() - 1 {
        assert(l2 =~= l.drop_last());
        assert forall|j: int|
            0 <= j < l.drop_last().len() implies l.drop_last()[j].0@ != l[i].0@ by {
            assert(l.drop_last()[j] == l[j]);
        }
        lemma_alist_view_absent(l.drop_last(), f, l[i].0@);
    } else {
        lemma_drop_last_distinct(l);
        assert(l2.drop_last() =~= l.drop_last().remove(i));
        assert(l2.last() == l.last());
        assert(l.drop_last()[i] == l[i]);
        lemma_alist_view_remove(l.drop_last(), f, i);
        assert(l[i].0@ != l.last().0@);
    }
}

/// Replacing an entry by one with the same name keeps the names pairwise
/// distinct.
pub proof fn lemma_update_distinct<V>(l: Seq<(String, V)>, i: int, p: (String, V))
    requires
        alist_distinct(l),
        0 <= i < l.len(),
        p.0@ == l[i].0@,
    ensures
        alist_distinct(l.update(i, p)),
{
    let l2 = l.update(i, p);
    assert forall|x: int, y: int| 0 <= x < y < l2.len() implies l2[x].0@ != l2[y].0@ by {
        assert(l2[x].0@ == l[x].0@);
        assert(l2[y].0@ == l[y].0@);
    }
}

/// Appending an entry under a fresh name keeps the names pairwise distinct.
pub proof fn lemma_push_distinct<V>(l: Seq<(String, V)>, p: (String, V))
    requires
        alist_distinct(l),
        forall|j: int| 0 <= j < l.len() ==> l[j].0@ != p.0@,
    ensures
        alist_distinct(l.push(p)),
{
    let l2 = l.push(p);
    assert forall|x: int, y: int| 0 <= x < y < l2.len() implies l2[x].0@ != l2[y].0@ by {
        assert(l2[x] == l[x]);
        if y < l.len() {
            assert(l2[y] == l[y]);
        } else {
            assert(l2[y] == p);
        }
    }
}

/// Removing an entry keeps the names pairwise distinct.
pub proof fn lemma_remove_distinct<V>(l: Seq<(String, V)>, i: int)
    requires
        alist_distinct(l),
        0 <= i < l.len(),
    ensures
        alist_distinct(l.remove(i)),
{
    let l2 = l.remove(i);
    assert forall|x: int, y: int| 0 <= x < y < l2.len() implies l2[x].0@ != l2[y].0@ by {
        if x < i {
            assert(l2[x] == l[x]);
        } else {
            assert(l2[x] == l[x + 1]);
        }
        if y < i {
            assert(l2[y] == l[y]);
        } else {
            assert(l2[y] == l[y + 1]);
        }
    }
}

/// Removing an entry and inserting another in its place is the same list as
/// updating the entry.
pub proof fn lemma_remove_insert<T>(l: Seq<T>, i: int, p: T)
    requires
        0 <= i < l.len(),
    ensures
        l.remove(i).insert(i, p) =~= l.update(i, p),
{
}

/// The index of the entry with the given name, if one stands in the list.
pub fn alist_find<V>(l: &Vec<(String, V)>, name: &String) -> (r: Option<usize>)
    ensures
        match r {
            Some(i) => i < l.len() && l@[i as int].0@ == name@,
            None => forall|j: int| 0 <= j < l@.len() ==> l@[j].0@ != name@,
        },
{
    let mut k: usize = 0;
    while k < l.len()
        invariant
            k <= l.len(),
            forall|j: int| 0 <= j < k ==> l@[j].0@ != name@,
        decreases l.len() - k,
    {
        if l[k].0 == *name {
            return Some(k);
        }
        k += 1;
    }
    None
}

} // verus!
