use crate::epoch::Epoch;
use crate::key::{Key, ParamId};
use vstd::prelude::*;

verus! {

/// The identity of a memoized call: the function and its interned parameters.
#[derive(Clone, Copy, Debug, PartialEq, Eq, Structural, Hash)]
pub struct DerivedNodeId {
    pub key: Key,
    pub param_id: ParamId,
}

/// What a dependency points to.
#[derive(Clone, Copy, Debug, PartialEq, Eq, Structural, Hash)]
pub enum NodeKind {
    Source(Key),
    Derived(DerivedNodeId),
}

/// A read edge from a derived node to a source or to another derived node,
/// with the epoch at which the edge was last confirmed.
#[derive(Clone, Copy, Debug, PartialEq, Eq, Structural)]
pub struct Dependency {
    pub node_to: NodeKind,
    pub time_verified_or_updated: Epoch,
}

/// The stored result of a memoized call.
#[derive(Debug)]
pub struct DerivedNode<V> {
    pub time_verified: Epoch,
    pub time_updated: Epoch,
    pub dependencies: Vec<Dependency>,
    pub inner_fn: Key,
    pub value: V,
}

} // verus!
