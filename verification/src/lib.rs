//! A heterogeneous event queue.
//!
//! Events of any type, each stamped with the id of its source, are appended
//! to a queue. A listener holds handlers by `(source id, event type)` and a
//! place in the queue's log; `dispatch` walks the envelopes appended since
//! its last call, in order, and hands each to the handler registered under
//! its key, if there is one. Nothing happens on `emit` but the append.
//!
//! [`rc`] is the single-owner flavour, [`arc`] the one whose payloads and
//! handlers may cross threads. They differ in the sharing primitive and in
//! the bounds on handlers, not in what they do.

use std::any::TypeId;
use vstd::prelude::*;

pub mod arc;
pub mod id;
pub mod key;
pub mod pack;
pub mod rc;
pub mod registry;
pub mod route;

pub use pack::{Packable, Write};

verus! {

/// An envelope: the id of the source, the tag of the payload's type, and the
/// payload.
#[derive(Debug, Clone)]
pub struct Event<Id, Data> {
    id: Id,
    type_id: TypeId,
    data: Data,
}

impl<Id, Data> Event<Id, Data> {
    /// The key by which the envelope is routed.
    pub closed spec fn key(self) -> key::Key<Id> {
        (self.id, self.type_id)
    }

    /// What the envelope carries.
    pub closed spec fn payload(self) -> Data {
        self.data
    }

    /// Puts an envelope together. The queues do this, with the tag of the
    /// payload's own type.
    pub(crate) fn new(id: Id, type_id: TypeId, data: Data) -> (event: Self)
        ensures
            event.key() == (id, type_id),
            event.payload() == data,
    {
        Event { id, type_id, data }
    }

    /// The id of the source.
    pub fn id(&self) -> (id: &Id)
        ensures
            *id == self.key().0,
    {
        &self.id
    }

    /// The tag of the payload's type.
    pub fn type_id(&self) -> (tag: TypeId)
        ensures
            tag == self.key().1,
    {
        self.type_id
    }

    /// The payload.
    pub fn data(&self) -> (data: &Data)
        ensures
            *data == self.payload(),
    {
        &self.data
    }
}

} // verus!
