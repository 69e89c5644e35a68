//! Which envelopes of a log a set of keys answers to.
//!
//! Dispatch is a walk over a stretch of the log. What it does to the caller's
//! output is up to the handlers; which envelopes it hands to a handler, and
//! in what order, is decided here.

use crate::key::Key;
use crate::Event;
use vstd::prelude::*;

verus! {

/// The positions `p` with `from <= p < to` at which `log` holds an envelope
/// whose key is in `keys`, in ascending order.
pub open spec fn matched<Id, Data>(
    keys: Set<Key<Id>>,
    log: Seq<Event<Id, Data>>,
    from: int,
    to: int,
) -> Seq<int>
    decreases to - from,
{
    if to <= from {
        Seq::empty()
    } else {
        let before = matched(keys, log, from, to - 1);
        if keys.contains(log[to - 1].key()) {
            before.push(to - 1)
        } else {
            before
        }
    }
}

/// Whether the stretch of `log` from `from` up to `to` holds an envelope with
/// the key `key`.
pub open spec fn sent_to<Id, Data>(
    key: Key<Id>,
    log: Seq<Event<Id, Data>>,
    from: int,
    to: int,
) -> bool {
    exists|p: int| from <= p < to && #[trigger] log[p].key() == key
}

/// A list of positions as mathematical integers.
pub open spec fn positions(handled: Seq<usize>) -> Seq<int> {
    Seq::new(handled.len(), |i: int| handled[i] as int)
}

/// Every matched position lies in the stretch and holds an envelope with a
/// registered key.
pub proof fn lemma_matched_sound<Id, Data>(
    keys: Set<Key<Id>>,
    log: Seq<Event<Id, Data>>,
    from: int,
    to: int,
    i: int,
)
    requires
        0 <= i < matched(keys, log, from, to).len(),
    ensures
        from <= matched(keys, log, from, to)[i] < to,
        keys.contains(log[matched(keys, log, from, to)[i]].key()),
    decreases to - from,
{
    if to > from {
        let before = matched(keys, log, from, to - 1);
        if i < before.len() {
            lemma_matched_sound(keys, log, from, to - 1, i);
        }
    }
}

/// Every position of the stretch that holds an envelope with a registered
/// key is matched.
pub proof fn lemma_matched_complete<Id, Data>(
    keys: Set<Key<Id>>,
    log: Seq<Event<Id, Data>>,
    from: int,
    to: int,
    p: int,
)
    requires
        from <= p < to,
        keys.contains(log[p].key()),
    ensures
        matched(keys, log, from, to).contains(p),
    decreases to - from,
{
    let before = matched(keys, log, from, to - 1);
    let all = matched(keys, log, from, to);
    if p == to - 1 {
        assert(all[before.len() as int] == p);
    } else {
        lemma_matched_complete(keys, log, from, to - 1, p);
        let i = choose|i: int| 0 <= i < before.len() && before[i] == p;
        assert(all[i] == p);
    }
}

/// Matched positions come in ascending order, none twice.
pub proof fn lemma_matched_ascending<Id, Data>(
    keys: Set<Key<Id>>,
    log: Seq<Event<Id, Data>>,
    from: int,
    to: int,
    i: int,
    j: int,
)
    requires
        0 <= i < j < matched(keys, log, from, to).len(),
    ensures
        matched(keys, log, from, to)[i] < matched(keys, log, from, to)[j],
    decreases to - from,
{
    if to > from {
        let before = matched(keys, log, from, to - 1);
        if j < before.len() {
            lemma_matched_ascending(keys, log, from, to - 1, i, j);
        } else {
            lemma_matched_sound(keys, log, from, to - 1, i);
        }
    }
}

/// Dispatching in two goes hands over what one `dispatch` at the end would
/// have handed over, in the same order: nothing is lost or seen twice in
/// between.
pub proof fn law_dispatches_add_up<Id, Data>(
    keys: Set<Key<Id>>,
    log: Seq<Event<Id, Data>>,
    from: int,
    mid: int,
    to: int,
)
    requires
        from <= mid <= to,
    ensures
        matched(keys, log, from, to) == matched(keys, log, from, mid) + matched(
            keys,
            log,
            mid,
            to,
        ),
    decreases to - mid,
{
    if to > mid {
        law_dispatches_add_up(keys, log, from, mid, to - 1);
    } else {
        assert(matched(keys, log, from, mid) + Seq::<int>::empty() =~= matched(
            keys,
            log,
            from,
            mid,
        ));
    }
}

/// A listener never sees what was emitted before it was made.
///
/// `listen` puts the new listener's cursor at the length `made_at` that the
/// log has then, and `dispatch` hands over the positions matched from the
/// cursor on. However the log has grown since, none of them is among the
/// first `made_at`.
pub proof fn law_listener_sees_only_later_envelopes<Id, Data>(
    keys: Set<Key<Id>>,
    log: Seq<Event<Id, Data>>,
    made_at: int,
    i: int,
)
    requires
        0 <= made_at <= log.len(),
        0 <= i < matched(keys, log, made_at, log.len() as int).len(),
    ensures
        matched(keys, log, made_at, log.len() as int)[i] >= made_at,
{
    lemma_matched_sound(keys, log, made_at, log.len() as int, i);
}

/// An envelope goes to a handler exactly if a handler is registered under
/// the envelope's own key: same source and same event type. A handler for
/// another type from the same source, or for the same type from another
/// source, does not make it go anywhere.
pub proof fn law_routed_by_exact_key<Id, Data>(
    keys: Set<Key<Id>>,
    log: Seq<Event<Id, Data>>,
    from: int,
    to: int,
    p: int,
)
    requires
        from <= p < to,
    ensures
        matched(keys, log, from, to).contains(p) <==> keys.contains(log[p].key()),
{
    if keys.contains(log[p].key()) {
        lemma_matched_complete(keys, log, from, to, p);
    }
    if matched(keys, log, from, to).contains(p) {
        let all = matched(keys, log, from, to);
        let i = choose|i: int| 0 <= i < all.len() && all[i] == p;
        lemma_matched_sound(keys, log, from, to, i);
    }
}

/// Registering a handler under `other` changes nothing for the envelopes of
/// any other key: as long as no envelope of the stretch has the key `other`,
/// the same envelopes are handed over with the handler as without it.
pub proof fn law_other_keys_do_not_matter<Id, Data>(
    keys: Set<Key<Id>>,
    other: Key<Id>,
    log: Seq<Event<Id, Data>>,
    from: int,
    to: int,
)
    requires
        forall|p: int| from <= p < to ==> log[p].key() != other,
    ensures
        matched(keys.insert(other), log, from, to) == matched(keys, log, from, to),
        matched(keys.remove(other), log, from, to) == matched(keys, log, from, to),
    decreases to - from,
{
    if to > from {
        law_other_keys_do_not_matter(keys, other, log, from, to - 1);
    }
}

/// Registering again under a key that has a handler replaces that handler
/// and adds none: the key set is what it was, so the same envelopes are
/// handed over, and each of them once.
pub proof fn law_replacing_adds_no_delivery<Id, Data>(
    keys: Set<Key<Id>>,
    key: Key<Id>,
    log: Seq<Event<Id, Data>>,
    from: int,
    to: int,
)
    requires
        keys.contains(key),
    ensures
        matched(keys.insert(key), log, from, to) == matched(keys, log, from, to),
        forall|i: int, j: int|
            0 <= i < j < matched(keys, log, from, to).len() ==> matched(keys, log, from, to)[i]
                != matched(keys, log, from, to)[j],
{
    assert(keys.insert(key) =~= keys);
    assert forall|i: int, j: int| 0 <= i < j < matched(keys, log, from, to).len() implies matched(
        keys,
        log,
        from,
        to,
    )[i] != matched(keys, log, from, to)[j] by {
        lemma_matched_ascending(keys, log, from, to, i, j);
    }
}

/// Envelopes are handed over in the order in which they were appended: of
/// two that are handed over, the one emitted first comes first.
pub proof fn law_delivered_in_append_order<Id, Data>(
    keys: Set<Key<Id>>,
    log: Seq<Event<Id, Data>>,
    from: int,
    to: int,
    earlier: int,
    later: int,
)
    requires
        from <= earlier < later < to,
        keys.contains(log[earlier].key()),
        keys.contains(log[later].key()),
    ensures
        matched(keys, log, from, to).contains(earlier),
        matched(keys, log, from, to).contains(later),
        matched(keys, log, from, to).index_of(earlier) < matched(keys, log, from, to).index_of(
            later,
        ),
{
    let all = matched(keys, log, from, to);
    lemma_matched_complete(keys, log, from, to, earlier);
    lemma_matched_complete(keys, log, from, to, later);
    let i = all.index_of(earlier);
    let j = all.index_of(later);
    if j < i {
        lemma_matched_ascending(keys, log, from, to, j, i);
    }
}

/// A second `dispatch` with nothing emitted in between hands over nothing:
/// the first leaves the cursor at the end of the log, and from there to the
/// end no position is matched.
pub proof fn law_drained_log_gives_nothing<Id, Data>(keys: Set<Key<Id>>, log: Seq<Event<Id, Data>>)
    ensures
        matched(keys, log, log.len() as int, log.len() as int) == Seq::<int>::empty(),
{
}

/// Once the handler of `key` is removed, no envelope of that key is handed
/// over any more.
pub proof fn law_removed_key_is_passed_over<Id, Data>(
    keys: Set<Key<Id>>,
    key: Key<Id>,
    log: Seq<Event<Id, Data>>,
    from: int,
    to: int,
    i: int,
)
    requires
        0 <= i < matched(keys.remove(key), log, from, to).len(),
    ensures
        log[matched(keys.remove(key), log, from, to)[i]].key() != key,
{
    lemma_matched_sound(keys.remove(key), log, from, to, i);
}

} // verus!
