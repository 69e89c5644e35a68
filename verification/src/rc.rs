//! The single-owner queue and listener.
//!
//! Payloads are shared through `Rc`, and a handler may keep state of its own
//! (`FnMut`). Neither a queue nor a listener of this module can go to another
//! thread.

use crate::key::{plain_id, tag_for, tag_of, Key};
use crate::pack::Packable;
use crate::registry::Registry;
use crate::route::{matched, positions, sent_to};
use crate::Event;
use std::any::Any;
use std::any::TypeId;
use std::marker::PhantomData;
use std::rc::Rc;
use vstd::prelude::*;

verus! {

/// A payload whose type has been erased: an `Rc<dyn Any>`.
///
/// `Any` is not a trait a verified signature can name, so the handle is kept
/// out of sight here and reached through the functions below.
#[verifier::external_body]
pub struct Payload {
    inner: Rc<dyn Any>,
}

/// The tag of the type of the event behind a payload.
pub uninterp spec fn payload_tag(payload: Payload) -> TypeId;

impl Clone for Payload {
    /// Calls `Rc::clone`: one more handle to the same event, which is the
    /// same payload.
    #[verifier::external_body]
    fn clone(&self) -> (copy: Self)
        ensures
            copy == *self,
    {
        Payload { inner: self.inner.clone() }
    }
}

/// Whether `payload` is what erasing the type of `event` gives, once `event`
/// sits in a shared handle: the answer of the conversion to that handle.
pub closed spec fn erased_from<E: 'static>(payload: Payload, event: E) -> bool {
    exists|shared: Rc<E>|
        *shared == event && call_ensures(Payload::from_rc::<E>, (shared,), payload)
}

impl Payload {
    /// Moves `event` into a fresh shared handle and erases its type: the
    /// payload is `event`, seen as any value, and its tag is the tag of `E`.
    pub fn new<E: 'static>(event: E) -> (payload: Payload)
        ensures
            erased_from(payload, event),
            payload_tag(payload) == tag_for::<E>(),
    {
        Payload::from_rc(Rc::new(event))
    }

    /// Converts an `Rc<E>` to `Rc<dyn Any>`, the unsizing coercion of std.
    ///
    /// Claims that the value behind the handle is still an `E`: its tag is
    /// the tag of `E`.
    #[verifier::external_body]
    fn from_rc<E: 'static>(event: Rc<E>) -> (payload: Payload)
        ensures
            payload_tag(payload) == tag_for::<E>(),
    {
        Payload { inner: event }
    }

    /// Calls `Any::type_id` on the event behind the handle: the tag of the
    /// event's type.
    #[verifier::external_body]
    fn tag(&self) -> (tag: TypeId)
        ensures
            tag == payload_tag(*self),
    {
        (*self.inner).type_id()
    }

    /// Calls `<dyn Any>::downcast_ref::<E>()` on the event behind the handle.
    ///
    /// Claims what std documents: the answer is `Some` exactly if the value
    /// behind the handle is an `E`, and then it is that value, which is the
    /// event that the handle was made from.
    #[verifier::external_body]
    fn downcast_ref<E: 'static>(&self) -> (found: Option<&E>)
        ensures
            found.is_some() <==> payload_tag(*self) == tag_for::<E>(),
            forall|event: E| #[trigger] erased_from(*self, event) ==> found == Some(&event),
    {
        self.inner.downcast_ref::<E>()
    }
}

/// The envelope of this module.
pub type QueueEvent<Id> = Event<Id, Payload>;

/// An envelope is stamped when its tag is the tag of its payload's type.
/// Every envelope that this module makes is.
pub open spec fn stamped<Id>(envelope: QueueEvent<Id>) -> bool {
    envelope.key().1 == payload_tag(envelope.payload())
}

/// Stamps a shared event with its source and the tag of its type.
pub fn stamp<Id, E: 'static>(id: Id, event: Rc<E>) -> (envelope: QueueEvent<Id>)
    ensures
        envelope.key() == (id, tag_for::<E>()),
        erased_from(envelope.payload(), *event),
        stamped(envelope),
{
    stamp_dyn(id, Payload::from_rc(event))
}

/// Stamps an erased event with its source and the tag found inside it.
pub fn stamp_dyn<Id>(id: Id, event: Payload) -> (envelope: QueueEvent<Id>)
    ensures
        envelope.key() == (id, payload_tag(event)),
        envelope.payload() == event,
{
    let tag = event.tag();
    Event::new(id, tag, event)
}

/// What calling `handler` with the event behind `payload` may do. `out` and
/// `ctx` stand for the two references lent for the call: what they point to
/// at its start and what they point to at its end.
pub open spec fn handles<O, A, E: 'static, F: FnMut(&mut O, &mut A, &E)>(
    handler: F,
    payload: Payload,
    out: &mut O,
    ctx: &mut A,
) -> bool {
    forall|event: E| #[trigger]
        erased_from(payload, event) ==> call_ensures(handler, (out, ctx, &event), ())
}

/// A handler once the type of its event is forgotten.
trait Handler<O, A> {
    /// The handler can be called, whatever it is handed.
    spec fn ready(&self) -> bool;

    /// The tag of the type of event that the handler is for.
    spec fn tag(&self) -> TypeId;

    /// What a call with `payload` may do to what `out` and `ctx` point to.
    spec fn effect(&self, payload: Payload, out: &mut O, ctx: &mut A) -> bool;

    /// Hands the handler an output, a context and a payload of its type.
    /// The handler stays the handler it was.
    fn handle(&mut self, out: &mut O, ctx: &mut A, payload: &Payload)
        requires
            old(self).ready(),
            payload_tag(*payload) == old(self).tag(),
        ensures
            final(self).ready(),
            final(self).tag() == old(self).tag(),
            forall|p: Payload, o: &mut O, a: &mut A| #[trigger]
                final(self).effect(p, o, a) == old(self).effect(p, o, a),
            exists|o: &mut O, a: &mut A|
                (*o == *old(out) && *final(o) == *final(out) && *a == *old(ctx) && *final(a)
                    == *final(ctx) && old(self).effect(*payload, o, a)),
    ;
}

/// A handler for events of type `E`, as it was registered.
struct Typed<E, F> {
    run: F,
    event: PhantomData<E>,
}

impl<O, A, E: 'static, F: FnMut(&mut O, &mut A, &E)> Handler<O, A> for Typed<E, F> {
    closed spec fn ready(&self) -> bool {
        forall|out: &mut O, ctx: &mut A, event: &E| call_requires(self.run, (out, ctx, event))
    }

    closed spec fn tag(&self) -> TypeId {
        tag_for::<E>()
    }

    closed spec fn effect(&self, payload: Payload, out: &mut O, ctx: &mut A) -> bool {
        handles::<O, A, E, F>(self.run, payload, out, ctx)
    }

    /// Takes the event from behind the payload and calls the handler with
    /// the output, the context and that event. The payload is tagged as an
    /// `E`, so the event is there.
    fn handle(&mut self, out: &mut O, ctx: &mut A, payload: &Payload) {
        match payload.downcast_ref::<E>() {
            Some(event) => {
                (self.run)(out, ctx, event);
                proof {
                    let run = old(self).run;
                    let (o, a) = choose|o: &mut O, a: &mut A|
                        *o == *old(out) && *final(o) == *final(out) && *a == *old(ctx) && *final(a)
                            == *final(ctx) && call_ensures(run, (o, a, event), ());
                    assert(handles::<O, A, E, F>(run, *payload, o, a));
                    assert(old(self).effect(*payload, o, a));
                }
            },
            None => unreached(),
        }
    }
}

/// A registered handler.
#[verifier::reject_recursive_types(O)]
#[verifier::reject_recursive_types(A)]
pub struct Slot<O, A> {
    handler: Box<dyn Handler<O, A>>,
}

impl<O, A> Slot<O, A> {
    /// The handler can be called, whatever it is handed.
    pub closed spec fn ready(self) -> bool {
        self.handler.ready()
    }

    /// The tag of the type of event that the handler is for.
    pub closed spec fn tag(self) -> TypeId {
        self.handler.tag()
    }

    /// What a call of the handler with `payload` may do to what `out` and
    /// `ctx` point to.
    pub closed spec fn effect(self, payload: Payload, out: &mut O, ctx: &mut A) -> bool {
        self.handler.effect(payload, out, ctx)
    }
}

/// What the handler that `handlers` holds for `envelope` may do when it is
/// called with the envelope's payload. `out` and `ctx` stand for the two
/// references lent for the call.
pub open spec fn served<Id, O, A>(
    handlers: Map<Key<Id>, Slot<O, A>>,
    envelope: QueueEvent<Id>,
    out: &mut O,
    ctx: &mut A,
) -> bool {
    handlers[envelope.key()].effect(envelope.payload(), out, ctx)
}

/// Handlers by key, and a place in a queue's log.
///
/// A listener does nothing by itself: `dispatch` has to be called for its
/// handlers to see events. `Queue::listen` makes one.
#[verifier::reject_recursive_types(O)]
#[verifier::reject_recursive_types(A)]
pub struct Listener<Id, O, A> {
    registry: Registry<Id, Slot<O, A>>,
    cursor: usize,
}

/// The listener that `listen::<T>()` makes on a queue with source ids `Id`.
pub type EventListener<T, Id = u64> = Listener<
    Id,
    <T as Packable>::Output,
    <T as Packable>::Context,
>;

impl<Id: Clone + PartialEq, O, A> Listener<Id, O, A> {
    /// The handlers, by key.
    pub closed spec fn view(self) -> Map<Key<Id>, Slot<O, A>> {
        self.registry@
    }

    /// The keys that have a handler.
    pub open spec fn keys(self) -> Set<Key<Id>> {
        self@.dom()
    }

    /// How many envelopes of the log are behind the listener.
    pub closed spec fn cursor(self) -> int {
        self.cursor as int
    }

    /// No key has two handlers, and every handler can be called and is for
    /// the type of event that its key names.
    pub closed spec fn wf(self) -> bool {
        &&& plain_id::<Id>()
        &&& self.registry.wf()
        &&& forall|key: Key<Id>|
            self.registry@.contains_key(key) ==> (#[trigger] self.registry@[key]).ready()
                && self.registry@[key].tag() == key.1
    }

    /// Adds a handler for events of type `E` from source `id`, and returns
    /// the key it is registered under. A handler that was registered under
    /// that key is dropped: the last registration wins. Nothing else changes.
    pub fn on<E: 'static, F: FnMut(&mut O, &mut A, &E) + 'static>(
        &mut self,
        id: Id,
        handler: F,
    ) -> (key: Key<Id>)
        requires
            old(self).wf(),
            forall|out: &mut O, ctx: &mut A, event: &E| call_requires(handler, (out, ctx, event)),
        ensures
            final(self).wf(),
            key == (id, tag_for::<E>()),
            final(self)@ == old(self)@.insert(key, final(self)@[key]),
            forall|payload: Payload, out: &mut O, ctx: &mut A| #[trigger]
                final(self)@[key].effect(payload, out, ctx) == handles::<O, A, E, F>(
                    handler,
                    payload,
                    out,
                    ctx,
                ),
            final(self).cursor() == old(self).cursor(),
    {
        let tag = tag_of::<E>();
        let stored = id.clone();
        assert(cloned::<Id>(id, stored));
        let slot = Slot { handler: Box::new(Typed::<E, F> { run: handler, event: PhantomData }) };
        self.registry.insert(stored, tag, slot);
        (id, tag)
    }

    /// `on`, for building a listener in one expression: takes the listener
    /// and gives it back with the handler added.
    pub fn and_on<E: 'static, F: FnMut(&mut O, &mut A, &E) + 'static>(
        self,
        id: Id,
        handler: F,
    ) -> (listener: Self)
        requires
            self.wf(),
            forall|out: &mut O, ctx: &mut A, event: &E| call_requires(handler, (out, ctx, event)),
        ensures
            listener.wf(),
            listener@ == self@.insert((id, tag_for::<E>()), listener@[(id, tag_for::<E>())]),
            forall|payload: Payload, out: &mut O, ctx: &mut A| #[trigger]
                listener@[(id, tag_for::<E>())].effect(payload, out, ctx) == handles::<O, A, E, F>(
                    handler,
                    payload,
                    out,
                    ctx,
                ),
            listener.cursor() == self.cursor(),
    {
        let mut listener = self;
        listener.on(id, handler);
        listener
    }

    /// Whether a handler is registered under `key`.
    pub fn contains_key(&self, key: &Key<Id>) -> (found: bool)
        requires
            self.wf(),
        ensures
            found == self@.contains_key(*key),
    {
        self.registry.contains(&key.0, &key.1)
    }

    /// Whether there is a handler for events of type `E` from source `id`.
    pub fn contains<E: 'static>(&self, id: Id) -> (found: bool)
        requires
            self.wf(),
        ensures
            found == self@.contains_key((id, tag_for::<E>())),
    {
        let key = (id, tag_of::<E>());
        self.contains_key(&key)
    }

    /// Takes out the handler registered under `key`, and says whether there
    /// was one. Nothing else changes.
    pub fn remove_key(&mut self, key: &Key<Id>) -> (removed: bool)
        requires
            old(self).wf(),
        ensures
            final(self).wf(),
            removed == old(self)@.contains_key(*key),
            final(self)@ == old(self)@.remove(*key),
            final(self).cursor() == old(self).cursor(),
    {
        self.registry.remove(&key.0, &key.1)
    }

    /// Takes out the handler for events of type `E` from source `id`, and
    /// says whether there was one.
    pub fn remove<E: 'static>(&mut self, id: Id) -> (removed: bool)
        requires
            old(self).wf(),
        ensures
            final(self).wf(),
            removed == old(self)@.contains_key((id, tag_for::<E>())),
            final(self)@ == old(self)@.remove((id, tag_for::<E>())),
            final(self).cursor() == old(self).cursor(),
    {
        let key = (id, tag_of::<E>());
        self.remove_key(&key)
    }

    /// Walks `events` from position `from` to the end, in order, and hands
    /// each envelope whose key has a handler to that handler.
    fn deliver_from(
        &mut self,
        events: &Vec<QueueEvent<Id>>,
        from: usize,
        out: &mut O,
        ctx: &mut A,
    ) -> (handled: Vec<usize>)
        requires
            old(self).wf(),
            from <= events.len(),
            forall|i: int| 0 <= i < events@.len() ==> stamped(#[trigger] events@[i]),
        ensures
            final(self).wf(),
            final(self)@.dom() == old(self)@.dom(),
            final(self).cursor() == old(self).cursor(),
            positions(handled@) == matched(
                old(self).keys(),
                events@,
                from as int,
                events@.len() as int,
            ),
            forall|key: Key<Id>|
                old(self)@.contains_key(key) && !sent_to(
                    key,
                    events@,
                    from as int,
                    events@.len() as int,
                ) ==> #[trigger] final(self)@[key] == old(self)@[key],
            forall|key: Key<Id>, payload: Payload, o: &mut O, a: &mut A|
                old(self)@.contains_key(key) ==> #[trigger] final(self)@[key].effect(payload, o, a)
                    == old(self)@[key].effect(payload, o, a),
            exists|outs: Seq<O>, ctxs: Seq<A>|
                (outs.len() == handled@.len() + 1 && ctxs.len() == handled@.len() + 1
                    && outs[0] == *old(out) && ctxs[0] == *old(ctx)
                    && outs[handled@.len() as int] == *final(out)
                    && ctxs[handled@.len() as int] == *final(ctx)
                    && forall|i: int|
                        #![trigger handled@[i]]
                        0 <= i < handled@.len() ==> handled@[i] < events@.len()
                            && exists|o: &mut O, a: &mut A|
                                (*o == outs[i] && *final(o) == outs[i + 1]
                                    && *a == ctxs[i] && *final(a) == ctxs[i + 1]
                                    && #[trigger] served(
                                        old(self)@,
                                        events@[handled@[i] as int],
                                        o,
                                        a,
                                    ))),
    {
        let ghost keys = self.keys();
        let n: usize = events.len();
        let mut handled: Vec<usize> = Vec::new();
        let mut at: usize = from;
        let ghost mut outs: Seq<O> = seq![*out];
        let ghost mut ctxs: Seq<A> = seq![*ctx];
        while at < n
            invariant
                from <= at <= n,
                n == events.len(),
                forall|i: int| 0 <= i < events@.len() ==> stamped(#[trigger] events@[i]),
                self.wf(),
                self@.dom() == keys,
                keys == old(self)@.dom(),
                self.cursor == old(self).cursor,
                positions(handled@) == matched(keys, events@, from as int, at as int),
                forall|key: Key<Id>|
                    keys.contains(key) && !sent_to(key, events@, from as int, at as int)
                        ==> #[trigger] self@[key] == old(self)@[key],
                forall|key: Key<Id>, payload: Payload, o: &mut O, a: &mut A|
                    keys.contains(key) ==> #[trigger] self@[key].effect(payload, o, a) == old(
                        self,
                    )@[key].effect(payload, o, a),
                outs.len() == handled@.len() + 1,
                ctxs.len() == handled@.len() + 1,
                outs[0] == *old(out),
                ctxs[0] == *old(ctx),
                outs[handled@.len() as int] == *out,
                ctxs[handled@.len() as int] == *ctx,
                forall|i: int|
                    #![trigger handled@[i]]
                    0 <= i < handled@.len() ==> handled@[i] < events@.len()
                        && exists|o: &mut O, a: &mut A|
                            (*o == outs[i] && *final(o) == outs[i + 1]
                                && *a == ctxs[i] && *final(a) == ctxs[i + 1]
                                && #[trigger] served(
                                    old(self)@,
                                    events@[handled@[i] as int],
                                    o,
                                    a,
                                )),
            decreases n - at,
        {
            let event = &events[at];
            let tag = event.type_id();
            match self.registry.position(event.id(), &tag) {
                Some(slot) => {
                    let ghost before = self.registry;
                    let ghost key = event.key();
                    let ghost was = handled@;
                    let ghost outs0 = outs;
                    let ghost ctxs0 = ctxs;
                    proof {
                        before.lemma_index_of(slot as int);
                        assert(stamped(events@[at as int]));
                    }
                    self.registry.entries[slot].handler.handler.handle(out, ctx, event.data());
                    proof {
                        let after = self.registry;
                        before.lemma_same_keys(after);
                        assert forall|k: Key<Id>| after@.contains_key(k) implies (
                        #[trigger] after@[k]).ready() && after@[k].tag() == k.1 by {
                            let i = before.index_of(k);
                            before.lemma_index_of(i);
                            after.lemma_index_of(i);
                        }
                        assert forall|k: Key<Id>|
                            keys.contains(k) && !sent_to(
                                k,
                                events@,
                                from as int,
                                at + 1,
                            ) implies #[trigger] after@[k] == old(self)@[k] by {
                            let i = before.index_of(k);
                            before.lemma_index_of(i);
                            after.lemma_index_of(i);
                        }
                        assert forall|k: Key<Id>, payload: Payload, o: &mut O, a: &mut A|
                            keys.contains(k) implies #[trigger] after@[k].effect(payload, o, a)
                            == old(self)@[k].effect(payload, o, a) by {
                            let i = before.index_of(k);
                            before.lemma_index_of(i);
                            after.lemma_index_of(i);
                            assert(before@[k].effect(payload, o, a) == old(self)@[k].effect(
                                payload,
                                o,
                                a,
                            ));
                        }
                        let (o, a) = choose|o: &mut O, a: &mut A|
                            *o == outs0[was.len() as int] && *final(o) == *out && *a
                                == ctxs0[was.len() as int] && *final(a) == *ctx
                                && before.entries[slot as int].handler.handler.effect(
                                events@[at as int].payload(),
                                o,
                                a,
                            );
                        assert(before.entries[slot as int].handler.effect(
                            events@[at as int].payload(),
                            o,
                            a,
                        ));
                        assert(before@[key].effect(events@[at as int].payload(), o, a));
                        assert(old(self)@[key].effect(events@[at as int].payload(), o, a));
                        outs = outs.push(*out);
                        ctxs = ctxs.push(*ctx);
                    }
                    handled.push(at);
                    proof {
                        assert forall|i: int|
                            #![trigger handled@[i]]
                            0 <= i < handled@.len() implies handled@[i] < events@.len() && exists|
                            o: &mut O,
                            a: &mut A,
                        |
                            (*o == outs[i] && *final(o) == outs[i + 1] && *a == ctxs[i]
                                && *final(a) == ctxs[i + 1] && #[trigger] served(
                                old(self)@,
                                events@[handled@[i] as int],
                                o,
                                a,
                            )) by {
                            if i < was.len() {
                                assert(handled@[i] == was[i]);
                                assert(outs[i] == outs0[i] && outs[i + 1] == outs0[i + 1]);
                                assert(ctxs[i] == ctxs0[i] && ctxs[i + 1] == ctxs0[i + 1]);
                            } else {
                                let (o, a) = choose|o: &mut O, a: &mut A|
                                    *o == outs0[was.len() as int] && *final(o) == outs[i + 1] && *a
                                        == ctxs0[was.len() as int] && *final(a) == ctxs[i + 1]
                                        && old(self)@[key].effect(
                                        events@[at as int].payload(),
                                        o,
                                        a,
                                    );
                                assert(served(old(self)@, events@[handled@[i] as int], o, a));
                            }
                        }
                    }
                },
                None => {},
            }
            at = at + 1;
        }
        handled
    }

    /// Hands the envelopes of `events`, first to last, to the handlers
    /// registered under their keys; an envelope whose key has no handler is
    /// passed over. Returns the positions of the envelopes that were handed
    /// to a handler, in the order in which that happened.
    ///
    /// The output and the context go through the calls one after the other:
    /// each call starts from what the call before it left, the first from
    /// what was handed in, and what the last leaves is what is handed back.
    /// A handler that is not called is left as it was, and one that is
    /// called stays the handler it was.
    ///
    /// This is `dispatch` for envelopes that come from somewhere else than a
    /// `Queue`. The listener's place in its queue is left alone.
    pub fn deliver(&mut self, events: &Vec<QueueEvent<Id>>, out: &mut O, ctx: &mut A) -> (handled:
        Vec<usize>)
        requires
            old(self).wf(),
            forall|i: int| 0 <= i < events@.len() ==> stamped(#[trigger] events@[i]),
        ensures
            final(self).wf(),
            final(self)@.dom() == old(self)@.dom(),
            final(self).cursor() == old(self).cursor(),
            positions(handled@) == matched(old(self).keys(), events@, 0, events@.len() as int),
            forall|key: Key<Id>|
                old(self)@.contains_key(key) && !sent_to(key, events@, 0, events@.len() as int)
                    ==> #[trigger] final(self)@[key] == old(self)@[key],
            forall|key: Key<Id>, payload: Payload, o: &mut O, a: &mut A|
                old(self)@.contains_key(key) ==> #[trigger] final(self)@[key].effect(payload, o, a)
                    == old(self)@[key].effect(payload, o, a),
            exists|outs: Seq<O>, ctxs: Seq<A>|
                (outs.len() == handled@.len() + 1 && ctxs.len() == handled@.len() + 1
                    && outs[0] == *old(out) && ctxs[0] == *old(ctx)
                    && outs[handled@.len() as int] == *final(out)
                    && ctxs[handled@.len() as int] == *final(ctx)
                    && forall|i: int|
                        #![trigger handled@[i]]
                        0 <= i < handled@.len() ==> handled@[i] < events@.len()
                            && exists|o: &mut O, a: &mut A|
                                (*o == outs[i] && *final(o) == outs[i + 1]
                                    && *a == ctxs[i] && *final(a) == ctxs[i + 1]
                                    && #[trigger] served(
                                        old(self)@,
                                        events@[handled@[i] as int],
                                        o,
                                        a,
                                    ))),
    {
        self.deliver_from(events, 0, out, ctx)
    }

    /// Hands every envelope that `queue` has taken in since the listener's
    /// last `dispatch` on it (or since `listen`) to the handler registered
    /// under its key, oldest first; an envelope whose key has no handler is
    /// passed over. Afterwards the listener stands at the end of the log.
    ///
    /// Returns the positions in the log of the envelopes that were handed to
    /// a handler, in the order in which that happened. One envelope is done
    /// with before the next is looked at. Should a handler not return, the
    /// envelopes that were pending are not handed over again.
    ///
    /// The output and the context go through the calls one after the other:
    /// each call starts from what the call before it left, the first from
    /// what was handed in, and what the last leaves is what is handed back.
    /// A handler that is not called is left as it was, and one that is
    /// called stays the handler it was.
    pub fn dispatch(&mut self, queue: &Queue<Id>, out: &mut O, ctx: &mut A) -> (handled: Vec<usize>)
        requires
            old(self).wf(),
        ensures
            final(self).wf(),
            final(self)@.dom() == old(self)@.dom(),
            final(self).cursor() == queue@.len(),
            positions(handled@) == matched(
                old(self).keys(),
                queue@,
                old(self).cursor(),
                queue@.len() as int,
            ),
            forall|key: Key<Id>|
                old(self)@.contains_key(key) && !sent_to(
                    key,
                    queue@,
                    old(self).cursor(),
                    queue@.len() as int,
                ) ==> #[trigger] final(self)@[key] == old(self)@[key],
            forall|key: Key<Id>, payload: Payload, o: &mut O, a: &mut A|
                old(self)@.contains_key(key) ==> #[trigger] final(self)@[key].effect(payload, o, a)
                    == old(self)@[key].effect(payload, o, a),
            exists|outs: Seq<O>, ctxs: Seq<A>|
                (outs.len() == handled@.len() + 1 && ctxs.len() == handled@.len() + 1
                    && outs[0] == *old(out) && ctxs[0] == *old(ctx)
                    && outs[handled@.len() as int] == *final(out)
                    && ctxs[handled@.len() as int] == *final(ctx)
                    && forall|i: int|
                        #![trigger handled@[i]]
                        0 <= i < handled@.len() ==> handled@[i] < queue@.len()
                            && exists|o: &mut O, a: &mut A|
                                (*o == outs[i] && *final(o) == outs[i + 1]
                                    && *a == ctxs[i] && *final(a) == ctxs[i + 1]
                                    && #[trigger] served(
                                        old(self)@,
                                        queue@[handled@[i] as int],
                                        o,
                                        a,
                                    ))),
    {
        proof {
            use_type_invariant(queue);
        }
        let n: usize = queue.log.len();
        let from: usize = if self.cursor < n {
            self.cursor
        } else {
            n
        };
        // The pending envelopes count as seen from here on, whatever the
        // handlers do with them.
        self.cursor = n;
        assert(self@ == old(self)@);
        assert(queue@ == queue.log@);
        self.deliver_from(&queue.log, from, out, ctx)
    }
}

/// The heterogeneous queue: a log of envelopes.
///
/// Emitting appends; nothing is called. To see events, make a listener with
/// `listen`, give it handlers, and call its `dispatch` with this queue.
pub struct Queue<Id = u64> {
    log: Vec<QueueEvent<Id>>,
}

impl<Id> View for Queue<Id> {
    type V = Seq<QueueEvent<Id>>;

    /// The envelopes taken in so far, oldest first.
    closed spec fn view(&self) -> Seq<QueueEvent<Id>> {
        self.log@
    }
}

impl<Id> Queue<Id> {
    /// Every envelope in the log is tagged with the type of its payload.
    #[verifier::type_invariant]
    spec fn all_stamped(self) -> bool {
        forall|i: int| 0 <= i < self.log@.len() ==> stamped(#[trigger] self.log@[i])
    }

    /// Appends an envelope to the log.
    fn append(&mut self, envelope: QueueEvent<Id>)
        requires
            stamped(envelope),
        ensures
            final(self)@ == old(self)@.push(envelope),
    {
        proof {
            use_type_invariant(&*self);
        }
        let mut log: Vec<QueueEvent<Id>> = Vec::new();
        std::mem::swap(&mut log, &mut self.log);
        log.push(envelope);
        self.log = log;
    }
}

impl<Id: Clone + PartialEq> Queue<Id> {
    /// An empty queue.
    pub fn new() -> (queue: Self)
        ensures
            queue@.len() == 0,
    {
        Queue { log: Vec::new() }
    }

    /// Emits an event: moves it into a shared handle and appends it,
    /// stamped with `id` and the tag of `E`, to the log.
    pub fn emit<E: 'static>(&mut self, id: Id, event: E)
        ensures
            final(self)@.len() == old(self)@.len() + 1,
            final(self)@.drop_last() == old(self)@,
            final(self)@.last().key() == (id, tag_for::<E>()),
            erased_from(final(self)@.last().payload(), event),
            stamped(final(self)@.last()),
    {
        self.emit_rc(id, Rc::new(event));
    }

    /// Emits an event that already sits in a shared handle.
    pub fn emit_rc<E: 'static>(&mut self, id: Id, event: Rc<E>)
        ensures
            final(self)@.len() == old(self)@.len() + 1,
            final(self)@.drop_last() == old(self)@,
            final(self)@.last().key() == (id, tag_for::<E>()),
            erased_from(final(self)@.last().payload(), *event),
            stamped(final(self)@.last()),
    {
        self.append(stamp(id, event));
    }

    /// Emits an event whose type is known only at run time.
    pub fn emit_dyn(&mut self, id: Id, event: Payload)
        ensures
            final(self)@.len() == old(self)@.len() + 1,
            final(self)@.drop_last() == old(self)@,
            final(self)@.last().key() == (id, payload_tag(event)),
            final(self)@.last().payload() == event,
            stamped(final(self)@.last()),
    {
        self.append(stamp_dyn(id, event));
    }

    /// A new listener, with no handler, that stands at the end of the log:
    /// what was emitted before this call it will never see.
    pub fn listen<T: Packable>(&self) -> (listener: Listener<Id, T::Output, T::Context>)
        requires
            plain_id::<Id>(),
        ensures
            listener.wf(),
            listener@ == Map::<Key<Id>, Slot<T::Output, T::Context>>::empty(),
            listener.cursor() == self@.len(),
    {
        Listener { registry: Registry::new(), cursor: self.log.len() }
    }
}

impl<Id: Clone + PartialEq> Default for Queue<Id> {
    /// An empty queue.
    fn default() -> (queue: Self)
        ensures
            queue@.len() == 0,
    {
        Queue::new()
    }
}

} // verus!
