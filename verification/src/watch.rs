use crate::paths::PathPair;
use crate::source_files::{LoadedFile, SourceError};
use vstd::prelude::*;

verus! {

/// What happened to a file or folder.
#[derive(Debug)]
pub enum SourceEventKind {
    CreateOrModify(PathPair),
    Rename(PathPair, PathPair),
    Remove(PathPair),
}

/// What kind of file or folder an event is about.
#[derive(Clone, Copy, Debug, PartialEq, Eq, Structural)]
pub enum ChangedFileKind {
    Config,
    Schema,
    SchemaExtension,
    JavaScriptSourceFile,
    JavaScriptSourceFolder,
}

/// A change in the project's files, with what was read on its account: the
/// content of the file that the event is about (for a rename, of its target)
/// and the files under the folder that the event is about (for a rename,
/// under its target). What an event has no use for is not looked at.
#[derive(Debug)]
pub struct SourceFileEvent {
    pub kind: SourceEventKind,
    pub changed: ChangedFileKind,
    pub file: Result<String, SourceError>,
    pub folder: Result<Vec<LoadedFile>, SourceError>,
}

/// Where the configuration says the schema and its extensions lie.
#[derive(Debug)]
pub struct SourceConfig {
    pub schema: PathPair,
    pub schema_extensions: Vec<PathPair>,
}

} // verus!
