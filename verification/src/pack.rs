//! What a listener lends to its handlers.
//!
//! Every handler of one listener is called with the same two things besides
//! the event: an output, which it is there to change, and a context. Their
//! types are fixed when the listener is made, by naming a parameter list.

use std::marker::PhantomData;
use vstd::prelude::*;

verus! {

/// Marks a parameter that handlers receive as `&mut T`.
pub struct Write<T: ?Sized>(PhantomData<T>);

/// A parameter list: the output and the context that go with each event.
pub trait Packable {
    /// What the handlers change.
    type Output;

    /// What the handlers are given besides.
    type Context;
}

/// Nothing is lent.
impl Packable for () {
    type Output = ();

    type Context = ();
}

/// An output and no context.
impl<T> Packable for Write<T> {
    type Output = T;

    type Context = ();
}

/// An output and a context.
impl<O, A> Packable for (Write<O>, Write<A>) {
    type Output = O;

    type Context = A;
}

} // verus!
