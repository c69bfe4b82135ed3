use crate::key::Key;
use crate::path_map::{same_files, PathMap};
use crate::source::Source;
use std::hash::DefaultHasher;
use std::hash::Hasher;
use vstd::prelude::*;
use vstd::std_specs::cmp::PartialEqSpecImpl;
use vstd::std_specs::hash::DefaultHasherAdditionalSpecFns;
use vstd::utf8::encode_utf8;

verus! {

/// The content of a schema file, or of a schema extension.
#[derive(Debug)]
pub struct SchemaSource {
    pub relative_path: String,
    pub content: String,
}

/// The content of a source file that may hold literals.
#[derive(Debug)]
pub struct IsoLiteralsSource {
    pub relative_path: String,
    pub content: String,
}

/// The sources of the schema and of its extensions.
#[derive(Debug)]
pub struct StandardSources {
    pub schema_source_id: Key,
    pub schema_extension_sources: PathMap,
}

/// The sources of the files that may hold literals, by relative path.
#[derive(Debug)]
pub struct IsoLiteralMap(pub PathMap);

/// Everything that the compiler stores in the engine as a source.
#[derive(Debug)]
pub enum CompilerSource {
    Schema(SchemaSource),
    IsoLiterals(IsoLiteralsSource),
    Standard(StandardSources),
    Literals(IsoLiteralMap),
}

/// What tells the kinds of source apart in their keys.
pub const SCHEMA_TAG: u8 = 1;

pub const ISO_LITERALS_TAG: u8 = 2;

pub const STANDARD_SOURCES_TAG: u8 = 3;

pub const ISO_LITERAL_MAP_TAG: u8 = 4;

/// The key of the source of kind `tag` for the file at `path`: the hash of
/// the tag and of the path's bytes.
pub open spec fn key_at(tag: u8, path: Seq<char>) -> Key {
    Key(DefaultHasher::spec_finish(seq![seq![tag], encode_utf8(path)]))
}

/// The key of the one source of kind `tag`.
pub open spec fn key_of_kind(tag: u8) -> Key {
    Key(DefaultHasher::spec_finish(seq![seq![tag]]))
}

/// The key of the source of kind `tag` for the file at `path`.
pub fn file_key(tag: u8, path: &String) -> (key: Key)
    ensures
        key == key_at(tag, path@),
{
    let mut hasher = DefaultHasher::new();
    let mut kind: Vec<u8> = Vec::new();
    kind.push(tag);
    hasher.write(kind.as_slice());
    hasher.write(path.as_str().as_bytes());
    proof {
        assert(kind@ =~= seq![tag]);
        assert(hasher@ =~= seq![seq![tag], encode_utf8(path@)]);
    }
    Key(hasher.finish())
}

/// The key of the one source of kind `tag`.
pub fn kind_key(tag: u8) -> (key: Key)
    ensures
        key == key_of_kind(tag),
{
    let mut hasher = DefaultHasher::new();
    let mut kind: Vec<u8> = Vec::new();
    kind.push(tag);
    hasher.write(kind.as_slice());
    proof {
        assert(kind@ =~= seq![tag]);
        assert(hasher@ =~= seq![seq![tag]]);
    }
    Key(hasher.finish())
}

impl CompilerSource {
    /// The key under which the source is stored.
    pub fn source_key(&self) -> (key: Key)
        ensures
            key == self.key(),
    {
        match self {
            CompilerSource::Schema(schema) => file_key(SCHEMA_TAG, &schema.relative_path),
            CompilerSource::IsoLiterals(file) => file_key(ISO_LITERALS_TAG, &file.relative_path),
            CompilerSource::Standard(_) => kind_key(STANDARD_SOURCES_TAG),
            CompilerSource::Literals(_) => kind_key(ISO_LITERAL_MAP_TAG),
        }
    }
}

impl Source for CompilerSource {
    /// The key under which the source is stored: that of its file for the
    /// content of a file, that of its kind for each of the two maps.
    open spec fn key(&self) -> Key {
        match self {
            CompilerSource::Schema(schema) => key_at(SCHEMA_TAG, schema.relative_path@),
            CompilerSource::IsoLiterals(file) => key_at(ISO_LITERALS_TAG, file.relative_path@),
            CompilerSource::Standard(_) => key_of_kind(STANDARD_SOURCES_TAG),
            CompilerSource::Literals(_) => key_of_kind(ISO_LITERAL_MAP_TAG),
        }
    }

    fn get_key(&self) -> (key: Key) {
        self.source_key()
    }
}

impl PartialEq for CompilerSource {
    fn eq(&self, other: &CompilerSource) -> (r: bool)
    {
        match (self, other) {
            (CompilerSource::Schema(a), CompilerSource::Schema(b)) => a.relative_path
                == b.relative_path && a.content == b.content,
            (CompilerSource::IsoLiterals(a), CompilerSource::IsoLiterals(b)) => a.relative_path
                == b.relative_path && a.content == b.content,
            (CompilerSource::Standard(a), CompilerSource::Standard(b)) => a.schema_source_id.0
                == b.schema_source_id.0 && a.schema_extension_sources
                == b.schema_extension_sources,
            (CompilerSource::Literals(a), CompilerSource::Literals(b)) => a.0 == b.0,
            _ => false,
        }
    }
}

impl PartialEqSpecImpl for CompilerSource {
    open spec fn obeys_eq_spec() -> bool {
        true
    }

    open spec fn eq_spec(&self, other: &CompilerSource) -> bool {
        match (self, other) {
            (CompilerSource::Schema(a), CompilerSource::Schema(b)) => a.relative_path@
                == b.relative_path@ && a.content@ == b.content@,
            (CompilerSource::IsoLiterals(a), CompilerSource::IsoLiterals(b)) => a.relative_path@
                == b.relative_path@ && a.content@ == b.content@,
            (CompilerSource::Standard(a), CompilerSource::Standard(b)) => a.schema_source_id
                == b.schema_source_id && same_files(
                a.schema_extension_sources.entries@,
                b.schema_extension_sources.entries@,
            ),
            (CompilerSource::Literals(a), CompilerSource::Literals(b)) => same_files(
                a.0.entries@,
                b.0.entries@,
            ),
            _ => false,
        }
    }
}

} // verus!
