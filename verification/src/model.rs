//! A reference model of the grid server's two collections.
//!
//! The remote server owns every queue and map; the client only carries names
//! and values through requests.  This module states what those collections do
//! — FIFO order for queues, overwrite semantics for maps, implicit creation
//! on first write, and the empty string as the representation of absence —
//! as a ghost state `GridView` with one transition per operation, and backs
//! it with an executable `GridModel` proved to follow those transitions, so
//! that the protocol's end-to-end behaviour can be exercised in tests.
//!
//! An absent key and an empty queue both answer with the empty string, just
//! as the wire protocol's empty response body does; a value that *is* the
//! empty string is indistinguishable from absence.  That ambiguity is part of
//! the protocol, and the model reproduces it rather than inventing a
//! sentinel.

use vstd::prelude::*;

use crate::alist::alist_distinct;
use crate::alist::alist_find;
use crate::alist::alist_view;
use crate::alist::lemma_alist_view_absent;
use crate::alist::lemma_alist_view_index;
use crate::alist::lemma_alist_view_push;
use crate::alist::lemma_alist_view_remove;
use crate::alist::lemma_alist_view_update;
use crate::alist::lemma_push_distinct;
use crate::alist::lemma_remove_distinct;
use crate::alist::lemma_remove_insert;
use crate::alist::lemma_update_distinct;
use crate::digits::dec_str;
use crate::digits::u64_to_decimal;

verus! {

/// The grid's state: each named queue's elements in arrival order, and each
/// named map's bindings.
pub ghost struct GridView {
    pub queues: Map<Seq<char>, Seq<Seq<char>>>,
    pub maps: Map<Seq<char>, Map<Seq<char>, Seq<char>>>,
}

/// What the named queue holds; a queue never written to holds nothing.
pub open spec fn queue_contents(s: GridView, q: Seq<char>) -> Seq<Seq<char>> {
    if s.queues.dom().contains(q) {
        s.queues[q]
    } else {
        Seq::empty()
    }
}

/// What the named map holds; a map never written to holds nothing.
pub open spec fn map_contents(s: GridView, m: Seq<char>) -> Map<Seq<char>, Seq<char>> {
    if s.maps.dom().contains(m) {
        s.maps[m]
    } else {
        Map::empty()
    }
}

/// Offering appends to the queue's tail, creating the queue on first write.
pub open spec fn offer_tr(s: GridView, q: Seq<char>, v: Seq<char>) -> GridView {
    GridView { queues: s.queues.insert(q, queue_contents(s, q).push(v)), maps: s.maps }
}

/// What a poll returns: the queue's head, or the empty string when the queue
/// holds nothing.
pub open spec fn poll_result(s: GridView, q: Seq<char>) -> Seq<char> {
    if queue_contents(s, q).len() == 0 {
        Seq::empty()
    } else {
        queue_contents(s, q)[0]
    }
}

/// Polling removes the queue's head; a queue that holds nothing is left as it
/// was.
pub open spec fn poll_tr(s: GridView, q: Seq<char>) -> GridView {
    if queue_contents(s, q).len() == 0 {
        s
    } else {
        GridView { queues: s.queues.insert(q, queue_contents(s, q).drop_first()), maps: s.maps }
    }
}

/// How many elements the named queue holds: offered and not yet polled.
pub open spec fn queue_len(s: GridView, q: Seq<char>) -> nat {
    queue_contents(s, q).len()
}

/// Putting binds the key, overwriting any earlier binding, and creates the
/// map on first write.
pub open spec fn put_tr(s: GridView, m: Seq<char>, k: Seq<char>, v: Seq<char>) -> GridView {
    GridView { queues: s.queues, maps: s.maps.insert(m, map_contents(s, m).insert(k, v)) }
}

/// What a get returns: the key's value, or the empty string when the key is
/// absent.
pub open spec fn get_result(s: GridView, m: Seq<char>, k: Seq<char>) -> Seq<char> {
    if map_contents(s, m).dom().contains(k) {
        map_contents(s, m)[k]
    } else {
        Seq::empty()
    }
}

/// Removing unbinds the key; a map that was never written to is left as it
/// was.
pub open spec fn remove_tr(s: GridView, m: Seq<char>, k: Seq<char>) -> GridView {
    if s.maps.dom().contains(m) {
        GridView { queues: s.queues, maps: s.maps.insert(m, s.maps[m].remove(k)) }
    } else {
        s
    }
}

/// Removing all unbinds every key of the named map; a map that was never
/// written to is left as it was.
pub open spec fn remove_all_tr(s: GridView, m: Seq<char>) -> GridView {
    if s.maps.dom().contains(m) {
        GridView { queues: s.queues, maps: s.maps.insert(m, Map::empty()) }
    } else {
        s
    }
}

/// The abstraction of one stored queue: its elements as character sequences.
pub open spec fn queue_abs() -> spec_fn(Vec<String>) -> Seq<Seq<char>> {
    |v: Vec<String>| v.deep_view()
}

/// The abstraction of one stored value.
pub open spec fn value_abs() -> spec_fn(String) -> Seq<char> {
    |s: String| s@
}

/// The abstraction of one stored map: its entry list as a finite map.
pub open spec fn map_abs() -> spec_fn(Vec<(String, String)>) -> Map<Seq<char>, Seq<char>> {
    |e: Vec<(String, String)>| alist_view(e@, value_abs())
}

/// An executable grid: named queues and named maps as association lists with
/// pairwise-distinct names.
pub struct GridModel {
    queues: Vec<(String, Vec<String>)>,
    maps: Vec<(String, Vec<(String, String)>)>,
}

impl View for GridModel {
    type V = GridView;

    closed spec fn view(&self) -> GridView {
        GridView {
            queues: alist_view(self.queues@, queue_abs()),
            maps: alist_view(self.maps@, map_abs()),
        }
    }
}

impl GridModel {
    /// The names of the stored queues and maps are pairwise distinct, and so
    /// are the keys inside each stored map.
    pub closed spec fn wf(&self) -> bool {
        &&& alist_distinct(self.queues@)
        &&& alist_distinct(self.maps@)
        &&& forall|i: int| 0 <= i < self.maps@.len() ==> alist_distinct(#[trigger] self.maps@[i].1@)
    }

    /// A grid that holds nothing at all.
    pub fn new() -> (m: GridModel)
        ensures
            m.wf(),
            m@.queues =~= Map::<Seq<char>, Seq<Seq<char>>>::empty(),
            m@.maps =~= Map::<Seq<char>, Map<Seq<char>, Seq<char>>>::empty(),
    {
        GridModel { queues: Vec::new(), maps: Vec::new() }
    }

    /// Appends `value` at the tail of the named queue, creating the queue on
    /// its first write.
    pub fn queue_offer(&mut self, queue_name: &str, value: &str)
        requires
            old(self).wf(),
        ensures
            final(self).wf(),
            final(self)@ == offer_tr(old(self)@, queue_name@, value@),
    {
        let name: String = queue_name.to_owned();
        match alist_find(&self.queues, &name) {
            Some(i) => {
                let ghost l = self.queues@;
                proof {
                    lemma_alist_view_index(l, queue_abs(), i as int);
                }
                let mut entry = self.queues.remove(i);
                entry.1.push(value.to_owned());
                let ghost p = entry;
                self.queues.insert(i, entry);
                proof {
                    lemma_remove_insert(l, i as int, p);
                    assert(self.queues@ =~= l.update(i as int, p));
                    lemma_alist_view_update(l, queue_abs(), i as int, p);
                    assert(queue_abs()(p.1) =~= queue_contents(old(self)@, queue_name@).push(
                        value@,
                    ));
                    lemma_update_distinct(l, i as int, p);
                    assert(self@.queues =~= offer_tr(old(self)@, queue_name@, value@).queues);
                    assert(self@ == offer_tr(old(self)@, queue_name@, value@));
                }
            },
            None => {
                let ghost l = self.queues@;
                proof {
                    lemma_alist_view_absent(l, queue_abs(), name@);
                }
                let mut vals: Vec<String> = Vec::new();
                vals.push(value.to_owned());
                let ghost p = (name, vals);
                self.queues.push((name, vals));
                proof {
                    assert(self.queues@ == l.push(p));
                    lemma_alist_view_push(l, queue_abs(), p);
                    lemma_push_distinct(l, p);
                    assert(queue_abs()(p.1) =~= queue_contents(old(self)@, queue_name@).push(
                        value@,
                    ));
                    assert(self@.queues =~= offer_tr(old(self)@, queue_name@, value@).queues);
                    assert(self@ == offer_tr(old(self)@, queue_name@, value@));
                }
            },
        }
    }

    /// Removes and returns the named queue's head, or returns the empty
    /// string when the queue holds nothing.
    pub fn queue_poll(&mut self, queue_name: &str) -> (r: String)
        requires
            old(self).wf(),
        ensures
            final(self).wf(),
            final(self)@ == poll_tr(old(self)@, queue_name@),
            r@ == poll_result(old(self)@, queue_name@),
    {
        let name: String = queue_name.to_owned();
        match alist_find(&self.queues, &name) {
            Some(i) => {
                let ghost l = self.queues@;
                proof {
                    lemma_alist_view_index(l, queue_abs(), i as int);
                }
                if self.queues[i].1.len() == 0 {
                    proof {
                        assert(queue_contents(old(self)@, queue_name@) =~= Seq::<
                            Seq<char>,
                        >::empty());
                    }
                    String::new()
                } else {
                    let mut entry = self.queues.remove(i);
                    let head = entry.1.remove(0);
                    let ghost p = entry;
                    self.queues.insert(i, entry);
                    proof {
                        lemma_remove_insert(l, i as int, p);
                        assert(self.queues@ =~= l.update(i as int, p));
                        lemma_alist_view_update(l, queue_abs(), i as int, p);
                        assert(queue_abs()(p.1) =~= queue_contents(
                            old(self)@,
                            queue_name@,
                        ).drop_first());
                        lemma_update_distinct(l, i as int, p);
                        assert(head@ == poll_result(old(self)@, queue_name@));
                        assert(self@.queues =~= poll_tr(old(self)@, queue_name@).queues);
                        assert(self@ == poll_tr(old(self)@, queue_name@));
                    }
                    head
                }
            },
            None => {
                proof {
                    lemma_alist_view_absent(self.queues@, queue_abs(), name@);
                    assert(queue_contents(old(self)@, queue_name@) =~= Seq::<Seq<char>>::empty());
                }
                String::new()
            },
        }
    }

    /// How many elements the named queue holds.
    pub fn queue_size(&self, queue_name: &str) -> (n: usize)
        requires
            self.wf(),
        ensures
            n == queue_len(self@, queue_name@),
    {
        let name: String = queue_name.to_owned();
        match alist_find(&self.queues, &name) {
            Some(i) => {
                proof {
                    lemma_alist_view_index(self.queues@, queue_abs(), i as int);
                }
                self.queues[i].1.len()
            },
            None => {
                proof {
                    lemma_alist_view_absent(self.queues@, queue_abs(), name@);
                    assert(queue_contents(self@, queue_name@) =~= Seq::<Seq<char>>::empty());
                }
                0
            },
        }
    }

    /// The response body the server sends for a size request: the queue's
    /// size as a decimal string.
    pub fn queue_size_body(&self, queue_name: &str) -> (r: String)
        requires
            self.wf(),
        ensures
            r@ == dec_str(queue_len(self@, queue_name@)),
    {
        let n: usize = self.queue_size(queue_name);
        u64_to_decimal(n as u64)
    }

    /// Binds `key_name` to `value` in the named map, overwriting any earlier
    /// binding and creating the map on its first write.
    pub fn map_put(&mut self, map_name: &str, key_name: &str, value: &str)
        requires
            old(self).wf(),
        ensures
            final(self).wf(),
            final(self)@ == put_tr(old(self)@, map_name@, key_name@, value@),
    {
        let mname: String = map_name.to_owned();
        let key: String = key_name.to_owned();
        match alist_find(&self.maps, &mname) {
            Some(i) => {
                let ghost l = self.maps@;
                proof {
                    lemma_alist_view_index(l, map_abs(), i as int);
                    assert(alist_distinct(l[i as int].1@));
                }
                let mut entry = self.maps.remove(i);
                let ghost inner0 = entry.1@;
                match alist_find(&entry.1, &key) {
                    Some(j) => {
                        let pair = entry.1.remove(j);
                        let newpair = (pair.0, value.to_owned());
                        let ghost q = newpair;
                        entry.1.insert(j, newpair);
                        proof {
                            lemma_remove_insert(inner0, j as int, q);
                            assert(entry.1@ =~= inner0.update(j as int, q));
                            lemma_alist_view_update(inner0, value_abs(), j as int, q);
                            lemma_update_distinct(inner0, j as int, q);
                            assert(alist_view(entry.1@, value_abs()) =~= map_contents(
                                old(self)@,
                                map_name@,
                            ).insert(key_name@, value@));
                        }
                    },
                    None => {
                        let newpair = (key, value.to_owned());
                        let ghost q = newpair;
                        entry.1.push(newpair);
                        proof {
                            lemma_alist_view_push(inner0, value_abs(), q);
                            lemma_push_distinct(inner0, q);
                            assert(alist_view(entry.1@, value_abs()) =~= map_contents(
                                old(self)@,
                                map_name@,
                            ).insert(key_name@, value@));
                        }
                    },
                }
                let ghost p = entry;
                self.maps.insert(i, entry);
                proof {
                    lemma_remove_insert(l, i as int, p);
                    assert(self.maps@ =~= l.update(i as int, p));
                    lemma_alist_view_update(l, map_abs(), i as int, p);
                    lemma_update_distinct(l, i as int, p);
                    assert(map_abs()(p.1) =~= map_contents(old(self)@, map_name@).insert(
                        key_name@,
                        value@,
                    ));
                    assert(self@.maps =~= put_tr(old(self)@, map_name@, key_name@, value@).maps);
                    assert(self@ == put_tr(old(self)@, map_name@, key_name@, value@));
                    assert forall|t: int|
                        0 <= t < self.maps@.len() implies alist_distinct(
                        #[trigger] self.maps@[t].1@,
                    ) by {
                        if t == i as int {
                            assert(self.maps@[t] == p);
                        } else {
                            assert(self.maps@[t] == l[t]);
                            assert(alist_distinct(l[t].1@));
                        }
                    }
                }
            },
            None => {
                let ghost l = self.maps@;
                proof {
                    lemma_alist_view_absent(l, map_abs(), mname@);
                }
                let newpair = (key, value.to_owned());
                let ghost q = newpair;
                let mut entries: Vec<(String, String)> = Vec::new();
                entries.push(newpair);
                let newentry = (mname, entries);
                let ghost p = newentry;
                self.maps.push(newentry);
                proof {
                    assert(p.1@ =~= Seq::<(String, String)>::empty().push(q));
                    lemma_alist_view_push(Seq::empty(), value_abs(), q);
                    assert(alist_view(p.1@, value_abs()) =~= map_contents(
                        old(self)@,
                        map_name@,
                    ).insert(key_name@, value@));
                    lemma_alist_view_push(l, map_abs(), p);
                    lemma_push_distinct(l, p);
                    assert(self@.maps =~= put_tr(old(self)@, map_name@, key_name@, value@).maps);
                    assert(self@ == put_tr(old(self)@, map_name@, key_name@, value@));
                    assert forall|t: int|
                        0 <= t < self.maps@.len() implies alist_distinct(
                        #[trigger] self.maps@[t].1@,
                    ) by {
                        if t == l.len() as int {
                            assert(self.maps@[t] == p);
                        } else {
                            assert(self.maps@[t] == l[t]);
                            assert(alist_distinct(l[t].1@));
                        }
                    }
                }
            },
        }
    }

    /// Returns the value bound to `key_name` in the named map, or the empty
    /// string when the key is absent.
    pub fn map_get(&self, map_name: &str, key_name: &str) -> (r: String)
        requires
            self.wf(),
        ensures
            r@ == get_result(self@, map_name@, key_name@),
    {
        let mname: String = map_name.to_owned();
        let key: String = key_name.to_owned();
        match alist_find(&self.maps, &mname) {
            Some(i) => {
                proof {
                    lemma_alist_view_index(self.maps@, map_abs(), i as int);
                    assert(alist_distinct(self.maps@[i as int].1@));
                }
                match alist_find(&self.maps[i].1, &key) {
                    Some(j) => {
                        proof {
                            lemma_alist_view_index(
                                self.maps@[i as int].1@,
                                value_abs(),
                                j as int,
                            );
                        }
                        self.maps[i].1[j].1.clone()
                    },
                    None => {
                        proof {
                            lemma_alist_view_absent(self.maps@[i as int].1@, value_abs(), key@);
                        }
                        String::new()
                    },
                }
            },
            None => {
                proof {
                    lemma_alist_view_absent(self.maps@, map_abs(), mname@);
                }
                String::new()
            },
        }
    }

    /// Unbinds `key_name` in the named map; an absent key, like an absent
    /// map, leaves the grid as it was.
    pub fn map_remove(&mut self, map_name: &str, key_name: &str)
        requires
            old(self).wf(),
        ensures
            final(self).wf(),
            final(self)@ == remove_tr(old(self)@, map_name@, key_name@),
    {
        let mname: String = map_name.to_owned();
        let key: String = key_name.to_owned();
        match alist_find(&self.maps, &mname) {
            Some(i) => {
                let ghost l = self.maps@;
                proof {
                    lemma_alist_view_index(l, map_abs(), i as int);
                    assert(alist_distinct(l[i as int].1@));
                }
                match alist_find(&self.maps[i].1, &key) {
                    Some(j) => {
                        let mut entry = self.maps.remove(i);
                        let ghost inner0 = entry.1@;
                        let _dropped = entry.1.remove(j);
                        let ghost p = entry;
                        self.maps.insert(i, entry);
                        proof {
                            lemma_alist_view_remove(inner0, value_abs(), j as int);
                            lemma_remove_distinct(inner0, j as int);
                            assert(alist_view(p.1@, value_abs()) =~= map_contents(
                                old(self)@,
                                map_name@,
                            ).remove(key_name@));
                            lemma_remove_insert(l, i as int, p);
                            assert(self.maps@ =~= l.update(i as int, p));
                            lemma_alist_view_update(l, map_abs(), i as int, p);
                            lemma_update_distinct(l, i as int, p);
                            assert(self@.maps =~= remove_tr(old(self)@, map_name@, key_name@).maps);
                            assert(self@ == remove_tr(old(self)@, map_name@, key_name@));
                            assert forall|t: int|
                                0 <= t < self.maps@.len() implies alist_distinct(
                                #[trigger] self.maps@[t].1@,
                            ) by {
                                if t == i as int {
                                    assert(self.maps@[t] == p);
                                } else {
                                    assert(self.maps@[t] == l[t]);
                                    assert(alist_distinct(l[t].1@));
                                }
                            }
                        }
                    },
                    None => {
                        proof {
                            lemma_alist_view_absent(self.maps@[i as int].1@, value_abs(), key@);
                            assert(map_contents(old(self)@, map_name@).remove(key_name@)
                                =~= map_contents(old(self)@, map_name@));
                            assert(old(self)@.maps.insert(
                                map_name@,
                                map_contents(old(self)@, map_name@),
                            ) =~= old(self)@.maps);
                            assert(remove_tr(old(self)@, map_name@, key_name@) == old(self)@);
                        }
                    },
                }
            },
            None => {
                proof {
                    lemma_alist_view_absent(self.maps@, map_abs(), mname@);
                }
            },
        }
    }

    /// Unbinds every key of the named map; a map that was never written to
    /// leaves the grid as it was.
    pub fn map_remove_all(&mut self, map_name: &str)
        requires
            old(self).wf(),
        ensures
            final(self).wf(),
            final(self)@ == remove_all_tr(old(self)@, map_name@),
    {
        let mname: String = map_name.to_owned();
        match alist_find(&self.maps, &mname) {
            Some(i) => {
                let ghost l = self.maps@;
                proof {
                    lemma_alist_view_index(l, map_abs(), i as int);
                }
                let entry = self.maps.remove(i);
                let newentry = (entry.0, Vec::<(String, String)>::new());
                let ghost p = newentry;
                self.maps.insert(i, newentry);
                proof {
                    lemma_remove_insert(l, i as int, p);
                    assert(self.maps@ =~= l.update(i as int, p));
                    lemma_alist_view_update(l, map_abs(), i as int, p);
                    lemma_update_distinct(l, i as int, p);
                    assert(p.1@ =~= Seq::<(String, String)>::empty());
                    assert(map_abs()(p.1) =~= Map::<Seq<char>, Seq<char>>::empty());
                    assert(self@.maps =~= remove_all_tr(old(self)@, map_name@).maps);
                    assert(self@ == remove_all_tr(old(self)@, map_name@));
                    assert forall|t: int|
                        0 <= t < self.maps@.len() implies alist_distinct(
                        #[trigger] self.maps@[t].1@,
                    ) by {
                        if t == i as int {
                            assert(self.maps@[t] == p);
                        } else {
                            assert(self.maps@[t] == l[t]);
                            assert(alist_distinct(l[t].1@));
                        }
                    }
                }
            },
            None => {
                proof {
                    lemma_alist_view_absent(self.maps@, map_abs(), mname@);
                }
            },
        }
    }
}

} // verus!
