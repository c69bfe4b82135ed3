use vstd::prelude::*;

verus! {

/// The identity of a source input, or of a memoized function.
///
/// The engine trusts keys: two inputs under one key are one input.
#[derive(Clone, Copy, Debug, PartialEq, Eq, Structural, Hash)]
pub struct Key(pub u64);

/// The handle of an interned parameter tuple.
#[derive(Clone, Copy, Debug, PartialEq, Eq, Structural, Hash)]
pub struct ParamId(pub u64);

} // verus!
