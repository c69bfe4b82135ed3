use crate::epoch::Epoch;
use crate::key::Key;
use core::marker::PhantomData;
use vstd::prelude::*;

verus! {

/// An input that knows its own stable identity.
pub trait Source {
    /// The identity of the input: what `get_key` reports. It depends on the
    /// input alone.
    spec fn key(&self) -> Key;

    /// The identity of the input.
    fn get_key(&self) -> (key: Key)
        ensures
            key == self.key(),
    ;
}

/// A typed handle to a source. `T` is a tag only: the handle is copyable
/// whatever `T` is.
#[derive(Debug, PartialEq, Eq, Hash)]
pub struct SourceId<T> {
    pub key: Key,
    pub phantom: PhantomData<T>,
}

impl<T> Clone for SourceId<T> {
    fn clone(&self) -> (c: Self)
        ensures
            c == *self,
    {
        *self
    }
}

impl<T> Copy for SourceId<T> {

}

impl<T> SourceId<T> {
    /// The handle of the source stored under `key`.
    pub fn from_key(key: Key) -> (id: Self)
        ensures
            id.key == key,
    {
        SourceId { key, phantom: PhantomData }
    }

    /// The handle of `source`: the one that wraps the key of `source`.
    pub fn new<S: Source>(source: &S) -> (id: Self)
        ensures
            id.key == source.key(),
    {
        Self::from_key(source.get_key())
    }
}

/// A stored input with the epoch at which its current value was installed.
#[derive(Debug)]
pub struct SourceNode<T> {
    pub time_updated: Epoch,
    pub value: T,
}

} // verus!
