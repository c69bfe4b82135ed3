use vstd::prelude::*;

verus! {

/// What the engine itself can fail with.
#[derive(Clone, Copy, Debug, PartialEq, Eq, Structural)]
pub enum EngineError {
    /// A read, or the verification of a dependency, reached a key that the
    /// source table does not hold.
    SourceNotFound,
    /// A parameter handle that no `intern` has returned.
    ParamNotFound,
    /// The chain of stored dependencies under a node is deeper than the
    /// engine follows; a cycle among them shows up as this.
    TooDeep,
    /// A user function would have to run while its memoized call is under
    /// way, running or asking its stored dependencies: it has called itself,
    /// directly or through other memoized calls.
    Cycle,
}

impl EngineError {
    /// A sentence for the error.
    pub fn message(&self) -> (s: &'static str)
        ensures
            s@ == (match *self {
                EngineError::SourceNotFound => "source not found"@,
                EngineError::ParamNotFound => "parameter not found"@,
                EngineError::TooDeep => "dependencies nested too deeply"@,
                EngineError::Cycle => "a memoized function depends on itself"@,
            }),
    {
        match self {
            EngineError::SourceNotFound => "source not found",
            EngineError::ParamNotFound => "parameter not found",
            EngineError::TooDeep => "dependencies nested too deeply",
            EngineError::Cycle => "a memoized function depends on itself",
        }
    }
}

} // verus!
