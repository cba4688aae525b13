//! The grid's operation-level guarantees, proved of the model's transitions.
//!
//! Each lemma here is a statement about every state, name and value, over the
//! same transition functions that `GridModel`'s executable operations are
//! proved to follow; together with those operations' contracts, each lemma
//! therefore holds of any run of the model.

use vstd::prelude::*;

use crate::model::GridView;
use crate::model::get_result;
use crate::model::offer_tr;
use crate::model::poll_result;
use crate::model::poll_tr;
use crate::model::put_tr;
use crate::model::queue_contents;
use crate::model::remove_all_tr;

verus! {

/// FIFO order: offering `v1` and then `v2` to a queue that holds nothing,
/// then polling twice with no other producer or consumer in between, yields
/// `v1` first and `v2` second.
pub proof fn lemma_queue_fifo(s: GridView, q: Seq<char>, v1: Seq<char>, v2: Seq<char>)
    requires
        queue_contents(s, q).len() == 0,
    ensures
        ({
            let after_offers = offer_tr(offer_tr(s, q, v1), q, v2);
            let after_first_poll = poll_tr(after_offers, q);
            poll_result(after_offers, q) == v1 && poll_result(after_first_poll, q) == v2
        }),
{
    let after_offers = offer_tr(offer_tr(s, q, v1), q, v2);
    let after_first_poll = poll_tr(after_offers, q);
    assert(queue_contents(after_offers, q) =~= seq![v1, v2]);
    assert(queue_contents(after_first_poll, q) =~= seq![v2]);
}

/// A poll takes exactly the queue's head and leaves the rest in order: what
/// FIFO means for one step, at any queue state.
pub proof fn lemma_poll_takes_head(s: GridView, q: Seq<char>)
    requires
        queue_contents(s, q).len() > 0,
    ensures
        poll_result(s, q) == queue_contents(s, q)[0],
        queue_contents(poll_tr(s, q), q) == queue_contents(s, q).drop_first(),
{
    assert(queue_contents(poll_tr(s, q), q) =~= queue_contents(s, q).drop_first());
}

/// Overwrite semantics: after putting `v1` and then `v2` under one key, a get
/// of that key returns `v2`, whatever the map held before.
pub proof fn lemma_put_overwrites(
    s: GridView,
    m: Seq<char>,
    k: Seq<char>,
    v1: Seq<char>,
    v2: Seq<char>,
)
    ensures
        get_result(put_tr(put_tr(s, m, k, v1), m, k, v2), m, k) == v2,
{
}

/// Removing all entries clears the map: afterwards a get of any key — present
/// before or not — returns the empty string, the protocol's representation
/// of absence.
pub proof fn lemma_remove_all_clears(s: GridView, m: Seq<char>, k: Seq<char>)
    ensures
        get_result(remove_all_tr(s, m), m, k) == Seq::<char>::empty(),
{
}

/// Round-trip idempotence: a get performs no write — the library gives it no
/// transition at all — so two gets of one key with no intervening put or
/// remove read one and the same grid state and return the same value.
pub proof fn lemma_get_idempotent(s: GridView, s2: GridView, m: Seq<char>, k: Seq<char>)
    requires
        s2 == s,
    ensures
        get_result(s2, m, k) == get_result(s, m, k),
{
}

} // verus!
