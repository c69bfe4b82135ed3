//! An incremental computation engine: a memoization fabric that tracks which
//! sources and which other memoized calls a derived value was computed from,
//! and re-runs a user function only when one of them has changed.
//!
//! The engine is a [`Database`]: an epoch clock, a table of sources, an
//! interner of parameter tuples, a store of derived nodes and a stack of
//! dependency frames. Its contracts speak of its model, a [`state::State`].
//! [`memo`] is the memoized call; [`laws`] holds what follows from the
//! contracts for every run of calls.
//!
//! On top of the engine, [`source_files`] keeps the files of a project in it:
//! the schema, its extensions and the source files, as they are first read
//! and as they change.

pub mod compiler_source;
pub mod database;
pub mod epoch;
pub mod error;
pub mod key;
pub mod laws;
pub mod memo;
pub mod node;
pub mod path_map;
pub mod paths;
pub mod source;
pub mod source_files;
pub mod state;
pub mod watch;

pub use compiler_source::IsoLiteralMap;
pub use database::Database;
pub use epoch::Epoch;
pub use error::EngineError;
pub use key::{Key, ParamId};
pub use memo::{memo, memo_within, register_dependency_in_parent_memoized_fn, DidRecalculate};
pub use node::{Dependency, DerivedNode, DerivedNodeId, NodeKind};
pub use source::{Source, SourceId, SourceNode};
pub use source_files::{initialize_sources, update_sources, SourceError};
