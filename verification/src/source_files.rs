use crate::compiler_source::{
    file_key, key_at, key_of_kind, kind_key, CompilerSource, IsoLiteralMap, IsoLiteralsSource, SchemaSource,
    StandardSources, ISO_LITERALS_TAG, ISO_LITERAL_MAP_TAG, SCHEMA_TAG, STANDARD_SOURCES_TAG,
};
use crate::database::Database;
use crate::key::Key;
use crate::path_map::{without_folder, PathMap};
use crate::paths::PathPair;
use crate::state::State;
use crate::watch::{ChangedFileKind, SourceConfig, SourceEventKind, SourceFileEvent};
use vstd::prelude::*;

verus! {

/// What can go wrong while the files of a project are loaded into the engine.
#[derive(Debug)]
pub enum SourceError {
    UnableToLoadSchema { path: String, message: String },
    SchemaNotFound,
    SchemaNotAFile { path: String },
    UnableToReadFile { path: String, message: String },
    UnableToConvertToString { path: String, reason: String },
    MultipleErrors { messages: Vec<SourceError> },
    ReadFileError { error: String },
}

/// A file as it was read: where it lies and what it holds.
#[derive(Debug)]
pub struct LoadedFile {
    pub relative_path: String,
    pub content: String,
}

/// A schema file as it was read: where it lies, and what it holds or why it
/// could not be read.
#[derive(Debug)]
pub struct LoadedSchema {
    pub relative_path: String,
    pub content: Result<String, SourceError>,
}

/// What was read of a project before the engine is filled for the first time.
#[derive(Debug)]
pub struct InitialFiles {
    /// The schema.
    pub schema: LoadedSchema,
    /// The schema extensions that the configuration names, in its order.
    pub schema_extensions: Vec<LoadedSchema>,
    /// The files under the project root, or why they could not be read.
    pub iso_literals: Result<Vec<LoadedFile>, SourceError>,
}

/// The source that holds the schema file `item`, which was read.
pub open spec fn schema_source_of(item: LoadedSchema) -> CompilerSource {
    CompilerSource::Schema(
        SchemaSource { relative_path: item.relative_path, content: item.content->Ok_0 },
    )
}

/// The source that holds the file `file`.
pub open spec fn literals_source_of(file: LoadedFile) -> CompilerSource {
    CompilerSource::IsoLiterals(
        IsoLiteralsSource { relative_path: file.relative_path, content: file.content },
    )
}

/// The place of the first of `items` that could not be read; their number if
/// all could.
pub open spec fn first_unread(items: Seq<LoadedSchema>, from: int) -> int
    decreases items.len() - from,
{
    if from < 0 || from >= items.len() {
        items.len() as int
    } else if items[from].content is Err {
        from
    } else {
        first_unread(items, from + 1)
    }
}

/// The engine after the first `n` of the schema files `items` were stored.
pub open spec fn after_schemas<P, R>(
    state: State<CompilerSource, P, R>,
    items: Seq<LoadedSchema>,
    n: int,
) -> State<CompilerSource, P, R>
    decreases n,
{
    if n <= 0 {
        state
    } else {
        after_schemas(state, items, n - 1).after_set(
            key_at(SCHEMA_TAG, items[n - 1].relative_path@),
            schema_source_of(items[n - 1]),
        )
    }
}

/// The map that holds the first `n` of the schema files `items`.
pub open spec fn schema_paths(items: Seq<LoadedSchema>, n: int) -> Map<Seq<char>, Key>
    decreases n,
{
    if n <= 0 {
        Map::empty()
    } else {
        schema_paths(items, n - 1).insert(
            items[n - 1].relative_path@,
            key_at(SCHEMA_TAG, items[n - 1].relative_path@),
        )
    }
}

/// The engine after the first `n` of the files `files` were stored.
pub open spec fn after_files<P, R>(
    state: State<CompilerSource, P, R>,
    files: Seq<LoadedFile>,
    n: int,
) -> State<CompilerSource, P, R>
    decreases n,
{
    if n <= 0 {
        state
    } else {
        after_files(state, files, n - 1).after_set(
            key_at(ISO_LITERALS_TAG, files[n - 1].relative_path@),
            literals_source_of(files[n - 1]),
        )
    }
}

/// The map `map` with the first `n` of the files `files` put in.
pub open spec fn with_files(map: Map<Seq<char>, Key>, files: Seq<LoadedFile>, n: int) -> Map<
    Seq<char>,
    Key,
>
    decreases n,
{
    if n <= 0 {
        map
    } else {
        with_files(map, files, n - 1).insert(
            files[n - 1].relative_path@,
            key_at(ISO_LITERALS_TAG, files[n - 1].relative_path@),
        )
    }
}

/// Storing a source moves the clock by one tick at most and keeps the engine
/// sound.
pub proof fn lemma_after_set_bounds<P, R>(
    state: State<CompilerSource, P, R>,
    key: Key,
    source: CompilerSource,
)
    requires
        state.epoch.0 < u64::MAX,
    ensures
        state.epoch.0 <= state.after_set(key, source).epoch.0 <= state.epoch.0 + 1,
{
}

/// Stores the schema file `schema` in the engine and hands back the key of
/// its source; a file that could not be read is the error that it carries,
/// and leaves the engine as it is.
pub fn read_schema<P, R>(db: &mut Database<CompilerSource, P, R>, schema: LoadedSchema) -> (r:
    Result<Key, SourceError>)
    requires
        old(db)@.wf(),
        old(db)@.epoch.0 < u64::MAX,
    ensures
        final(db)@.wf(),
        match r {
            Ok(key) => schema.content is Ok && key == key_at(SCHEMA_TAG, schema.relative_path@)
                && final(db)@ == old(db)@.after_set(key, schema_source_of(schema)),
            Err(e) => schema.content == Err::<String, SourceError>(e) && final(db)@ == old(db)@,
        },
{
    let LoadedSchema { relative_path, content } = schema;
    match content {
        Ok(content) => {
            let source = CompilerSource::Schema(SchemaSource { relative_path, content });
            let key = source.source_key();
            db.set_at(key, source);
            Ok(key)
        },
        Err(e) => Err(e),
    }
}

/// Stores the schema extensions `items` in their order, up to the first that
/// could not be read, and hands back the map of those stored.
pub fn read_schema_extensions<P, R>(
    db: &mut Database<CompilerSource, P, R>,
    items: Vec<LoadedSchema>,
) -> (r: Result<PathMap, SourceError>)
    requires
        old(db)@.wf(),
        old(db)@.epoch.0 + items@.len() <= u64::MAX,
    ensures
        final(db)@.wf(),
        final(db)@ == after_schemas(old(db)@, items@, first_unread(items@, 0)),
        final(db)@.epoch.0 <= old(db)@.epoch.0 + items@.len(),
        match r {
            Ok(map) => first_unread(items@, 0) == items@.len() && map.wf() && map@ == schema_paths(
                items@,
                items@.len() as int,
            ),
            Err(e) => first_unread(items@, 0) < items@.len() && items@[first_unread(
                items@,
                0,
            )].content == Err::<String, SourceError>(e),
        },
{
    let mut map = PathMap::new();
    let mut rest = items;
    let total = rest.len();
    let mut done: usize = 0;
    while rest.len() > 0
        invariant
            done + rest@.len() == total,
            total == items@.len(),
            rest@ == items@.subrange(done as int, total as int),
            old(db)@.epoch.0 + total <= u64::MAX,
            db@.wf(),
            db@ == after_schemas(old(db)@, items@, done as int),
            db@.epoch.0 <= old(db)@.epoch.0 + done,
            map.wf(),
            map@ == schema_paths(items@, done as int),
            first_unread(items@, 0) == first_unread(items@, done as int),
        decreases rest@.len(),
    {
        let item = rest.remove(0);
        assert(item == items@[done as int]);
        assert(rest@ =~= items@.subrange(done + 1, total as int));
        let ghost before = db@;
        let path = item.relative_path.clone();
        match read_schema(db, item) {
            Ok(key) => {
                proof {
                    lemma_after_set_bounds(before, key, schema_source_of(items@[done as int]));
                }
                map.insert(path, key);
            },
            Err(e) => {
                return Err(e);
            },
        }
        done = done + 1;
    }
    Ok(map)
}

/// Stores the files `files` in their order and puts each into `map`.
pub fn read_iso_literals_from_folder<P, R>(
    db: &mut Database<CompilerSource, P, R>,
    iso_literals: &mut PathMap,
    files: Vec<LoadedFile>,
)
    requires
        old(db)@.wf(),
        old(iso_literals).wf(),
        old(db)@.epoch.0 + files@.len() <= u64::MAX,
    ensures
        final(db)@.wf(),
        final(iso_literals).wf(),
        final(db)@ == after_files(old(db)@, files@, files@.len() as int),
        final(db)@.epoch.0 <= old(db)@.epoch.0 + files@.len(),
        final(iso_literals)@ == with_files(old(iso_literals)@, files@, files@.len() as int),
{
    let mut rest = files;
    let total = rest.len();
    let mut done: usize = 0;
    while rest.len() > 0
        invariant
            done + rest@.len() == total,
            total == files@.len(),
            rest@ == files@.subrange(done as int, total as int),
            old(db)@.epoch.0 + total <= u64::MAX,
            db@.wf(),
            db@ == after_files(old(db)@, files@, done as int),
            db@.epoch.0 <= old(db)@.epoch.0 + done,
            iso_literals.wf(),
            iso_literals@ == with_files(old(iso_literals)@, files@, done as int),
        decreases rest@.len(),
    {
        let file = rest.remove(0);
        assert(file == files@[done as int]);
        assert(rest@ =~= files@.subrange(done + 1, total as int));
        let ghost before = db@;
        let path = file.relative_path.clone();
        let source = CompilerSource::IsoLiterals(
            IsoLiteralsSource { relative_path: file.relative_path, content: file.content },
        );
        let key = source.source_key();
        proof {
            lemma_after_set_bounds(before, key, source);
        }
        db.set_at(key, source);
        iso_literals.insert(path, key);
        done = done + 1;
    }
}

/// Why the first filling of the engine stops early, if it does: the schema,
/// then the first schema extension, then the files under the project root,
/// whichever could not be read first.
pub open spec fn loading_error(files: InitialFiles) -> Option<SourceError> {
    let extensions = files.schema_extensions@;
    if files.schema.content is Err {
        Some(files.schema.content->Err_0)
    } else if first_unread(extensions, 0) < extensions.len() {
        Some(extensions[first_unread(extensions, 0)].content->Err_0)
    } else if files.iso_literals is Err {
        Some(files.iso_literals->Err_0)
    } else {
        None
    }
}

/// The engine after the files of `files` were stored, as far as they could be
/// read.
pub open spec fn after_loading<P, R>(
    state: State<CompilerSource, P, R>,
    files: InitialFiles,
) -> State<CompilerSource, P, R> {
    let extensions = files.schema_extensions@;
    if files.schema.content is Err {
        state
    } else {
        let with_schemas = after_schemas(
            state.after_set(
                key_at(SCHEMA_TAG, files.schema.relative_path@),
                schema_source_of(files.schema),
            ),
            extensions,
            first_unread(extensions, 0),
        );
        if first_unread(extensions, 0) < extensions.len() || files.iso_literals is Err {
            with_schemas
        } else {
            after_files(
                with_schemas,
                files.iso_literals->Ok_0@,
                files.iso_literals->Ok_0@.len() as int,
            )
        }
    }
}

/// How many sources the first filling of the engine stores at most.
pub open spec fn sources_to_store(files: InitialFiles) -> int {
    3 + files.schema_extensions@.len() + (if files.iso_literals is Ok {
        files.iso_literals->Ok_0@.len() as int
    } else {
        0
    })
}

/// Fills the engine for the first time: stores the schema, the schema
/// extensions and the files under the project root, and then the two maps
/// that say which sources those are. What could not be read stops the
/// filling with its error, after what was stored before it.
pub fn initialize_sources<P, R>(db: &mut Database<CompilerSource, P, R>, files: InitialFiles) -> (r:
    Result<(), SourceError>)
    requires
        old(db)@.wf(),
        old(db)@.epoch.0 + sources_to_store(files) <= u64::MAX,
    ensures
        final(db)@.wf(),
        match r {
            Err(e) => loading_error(files) == Some(e) && final(db)@ == after_loading(
                old(db)@,
                files,
            ),
            Ok(_) => loading_error(files) is None && exists|
                standard: StandardSources,
                literals: PathMap,
            |
                {
                    &&& standard.schema_source_id == key_at(
                        SCHEMA_TAG,
                        files.schema.relative_path@,
                    )
                    &&& standard.schema_extension_sources.wf()
                    &&& standard.schema_extension_sources@ == schema_paths(
                        files.schema_extensions@,
                        files.schema_extensions@.len() as int,
                    )
                    &&& literals.wf()
                    &&& literals@ == with_files(
                        Map::empty(),
                        files.iso_literals->Ok_0@,
                        files.iso_literals->Ok_0@.len() as int,
                    )
                    &&& final(db)@ == #[trigger] after_loading(old(db)@, files).after_set(
                        key_of_kind(STANDARD_SOURCES_TAG),
                        CompilerSource::Standard(standard),
                    ).after_set(
                        key_of_kind(ISO_LITERAL_MAP_TAG),
                        CompilerSource::Literals(IsoLiteralMap(literals)),
                    )
                },
        },
{
    let InitialFiles { schema, schema_extensions, iso_literals } = files;
    let ghost start = db@;
    let schema_source_id = match read_schema(db, schema) {
        Ok(key) => key,
        Err(e) => {
            return Err(e);
        },
    };
    proof {
        lemma_after_set_bounds(start, schema_source_id, schema_source_of(schema));
    }
    let schema_extension_sources = match read_schema_extensions(db, schema_extensions) {
        Ok(map) => map,
        Err(e) => {
            return Err(e);
        },
    };
    let entries = match iso_literals {
        Ok(entries) => entries,
        Err(e) => {
            return Err(e);
        },
    };
    let mut literals = PathMap::new();
    read_iso_literals_from_folder(db, &mut literals, entries);
    let ghost loaded = db@;
    let ghost stored_literals = literals;
    assert(loaded == after_loading(start, files));
    let standard = StandardSources { schema_source_id, schema_extension_sources };
    let ghost stored_standard = standard;
    let standard_source = CompilerSource::Standard(standard);
    let standard_key = standard_source.source_key();
    proof {
        lemma_after_set_bounds(loaded, standard_key, standard_source);
    }
    db.set_at(standard_key, standard_source);
    let literals_source = CompilerSource::Literals(IsoLiteralMap(literals));
    let literals_key = literals_source.source_key();
    db.set_at(literals_key, literals_source);
    proof {
        assert(db@ == after_loading(start, files).after_set(
            key_of_kind(STANDARD_SOURCES_TAG),
            CompilerSource::Standard(stored_standard),
        ).after_set(
            key_of_kind(ISO_LITERAL_MAP_TAG),
            CompilerSource::Literals(IsoLiteralMap(stored_literals)),
        ));
    }
    Ok(())
}

/// What an event does: the engine after it, the map that it worked on after
/// it, and the error that it ended with, if any.
pub struct Step<P, R> {
    pub engine: State<CompilerSource, P, R>,
    pub map: Map<Seq<char>, Key>,
    pub error: Option<SourceError>,
}

/// The step of storing the file at `relative_path`, read as `file`, as a
/// source of kind `tag`, and putting it into `map`.
pub open spec fn store_step<P, R>(
    engine: State<CompilerSource, P, R>,
    map: Map<Seq<char>, Key>,
    tag: u8,
    relative_path: String,
    file: Result<String, SourceError>,
) -> Step<P, R> {
    match file {
        Ok(content) => Step {
            engine: engine.after_set(
                key_at(tag, relative_path@),
                file_source(tag, relative_path, content),
            ),
            map: map.insert(relative_path@, key_at(tag, relative_path@)),
            error: None,
        },
        Err(e) => Step { engine, map, error: Some(e) },
    }
}

/// The source of kind `tag` for the file at `relative_path` that holds
/// `content`.
pub open spec fn file_source(tag: u8, relative_path: String, content: String) -> CompilerSource {
    if tag == SCHEMA_TAG {
        CompilerSource::Schema(SchemaSource { relative_path, content })
    } else {
        CompilerSource::IsoLiterals(IsoLiteralsSource { relative_path, content })
    }
}

/// Whether the configuration names a schema extension at `absolute_path`.
pub open spec fn names_extension(extensions: Seq<PathPair>, absolute_path: Seq<char>) -> bool {
    exists|i: int| 0 <= i < extensions.len() && (#[trigger] extensions[i]).absolute_path@ == absolute_path
}

/// What an event about the schema does. The map of the step is not used.
pub open spec fn schema_step<P, R>(
    engine: State<CompilerSource, P, R>,
    config: SourceConfig,
    kind: SourceEventKind,
    file: Result<String, SourceError>,
) -> Step<P, R> {
    match kind {
        SourceEventKind::CreateOrModify(_) => store_step(
            engine,
            Map::empty(),
            SCHEMA_TAG,
            config.schema.relative_path,
            file,
        ),
        SourceEventKind::Rename(_, target) => Step {
            engine,
            map: Map::empty(),
            error: if config.schema.absolute_path@ != target.absolute_path@ {
                Some(SourceError::SchemaNotFound)
            } else {
                None
            },
        },
        SourceEventKind::Remove(_) => Step {
            engine,
            map: Map::empty(),
            error: Some(SourceError::SchemaNotFound),
        },
    }
}

/// What an event about a schema extension does to the engine and to the map
/// of the schema extensions.
pub open spec fn extension_step<P, R>(
    engine: State<CompilerSource, P, R>,
    config: SourceConfig,
    extensions: Map<Seq<char>, Key>,
    kind: SourceEventKind,
    file: Result<String, SourceError>,
) -> Step<P, R> {
    match kind {
        SourceEventKind::CreateOrModify(path) => store_step(
            engine,
            extensions,
            SCHEMA_TAG,
            path.relative_path,
            file,
        ),
        SourceEventKind::Rename(source, target) => if names_extension(
            config.schema_extensions@,
            target.absolute_path@,
        ) {
            store_step(engine, extensions, SCHEMA_TAG, target.relative_path, file)
        } else {
            Step { engine, map: extensions.remove(source.relative_path@), error: None }
        },
        SourceEventKind::Remove(path) => Step {
            engine,
            map: extensions.remove(path.relative_path@),
            error: None,
        },
    }
}

/// What an event about a source file does to the engine and to the map of
/// the files that may hold literals.
pub open spec fn file_step<P, R>(
    engine: State<CompilerSource, P, R>,
    literals: Map<Seq<char>, Key>,
    kind: SourceEventKind,
    file: Result<String, SourceError>,
) -> Step<P, R> {
    match kind {
        SourceEventKind::CreateOrModify(path) => store_step(
            engine,
            literals,
            ISO_LITERALS_TAG,
            path.relative_path,
            file,
        ),
        SourceEventKind::Rename(source, target) => if literals.contains_key(
            source.relative_path@,
        ) {
            store_step(
                engine,
                literals.remove(source.relative_path@),
                ISO_LITERALS_TAG,
                target.relative_path,
                file,
            )
        } else {
            Step { engine, map: literals, error: None }
        },
        SourceEventKind::Remove(path) => Step {
            engine,
            map: literals.remove(path.relative_path@),
            error: None,
        },
    }
}

/// The step of storing the files read under a folder and putting them into
/// `literals`.
pub open spec fn folder_store_step<P, R>(
    engine: State<CompilerSource, P, R>,
    literals: Map<Seq<char>, Key>,
    folder: Result<Vec<LoadedFile>, SourceError>,
) -> Step<P, R> {
    match folder {
        Ok(files) => Step {
            engine: after_files(engine, files@, files@.len() as int),
            map: with_files(literals, files@, files@.len() as int),
            error: None,
        },
        Err(e) => Step { engine, map: literals, error: Some(e) },
    }
}

/// What an event about a folder of source files does to the engine and to
/// the map of the files that may hold literals.
pub open spec fn folder_step<P, R>(
    engine: State<CompilerSource, P, R>,
    literals: Map<Seq<char>, Key>,
    kind: SourceEventKind,
    folder: Result<Vec<LoadedFile>, SourceError>,
) -> Step<P, R> {
    match kind {
        SourceEventKind::CreateOrModify(_) => folder_store_step(engine, literals, folder),
        SourceEventKind::Rename(source, _) => folder_store_step(
            engine,
            without_folder(literals, source.relative_path@),
            folder,
        ),
        SourceEventKind::Remove(path) => Step {
            engine,
            map: without_folder(literals, path.relative_path@),
            error: None,
        },
    }
}

/// How many sources an event stores at most.
pub open spec fn stores_of(event: SourceFileEvent) -> int {
    1 + (if event.folder is Ok {
        event.folder->Ok_0@.len() as int
    } else {
        0
    })
}

/// Takes the files under the folder at `folder` out of the map.
pub fn remove_iso_literals_from_folder(iso_literals: &mut PathMap, folder: &String)
    requires
        old(iso_literals).wf(),
    ensures
        final(iso_literals).wf(),
        final(iso_literals)@ == without_folder(old(iso_literals)@, folder@),
{
    iso_literals.remove_under(folder);
}

/// Stores the file at `relative_path`, read as `file`, as a source of kind
/// `tag` and puts it into `map`; a file that could not be read is the error
/// that it carries, and leaves the engine and the map as they are.
fn store_file<P, R>(
    db: &mut Database<CompilerSource, P, R>,
    map: &mut PathMap,
    tag: u8,
    relative_path: &String,
    file: Result<String, SourceError>,
) -> (r: Result<Key, SourceError>)
    requires
        old(db)@.wf(),
        old(map).wf(),
        old(db)@.epoch.0 < u64::MAX,
    ensures
        final(db)@.wf(),
        final(map).wf(),
        final(db)@ == store_step(old(db)@, old(map)@, tag, *relative_path, file).engine,
        final(map)@ == store_step(old(db)@, old(map)@, tag, *relative_path, file).map,
        final(db)@.epoch.0 <= old(db)@.epoch.0 + 1,
        match r {
            Ok(key) => file is Ok && key == key_at(tag, relative_path@),
            Err(e) => store_step(old(db)@, old(map)@, tag, *relative_path, file).error == Some(e),
        },
{
    match file {
        Ok(content) => {
            let source = if tag == SCHEMA_TAG {
                CompilerSource::Schema(
                    SchemaSource { relative_path: relative_path.clone(), content },
                )
            } else {
                CompilerSource::IsoLiterals(
                    IsoLiteralsSource { relative_path: relative_path.clone(), content },
                )
            };
            let key = file_key(tag, relative_path);
            proof {
                lemma_after_set_bounds(db@, key, source);
            }
            db.set_at(key, source);
            map.insert(relative_path.clone(), key);
            Ok(key)
        },
        Err(e) => Err(e),
    }
}

/// Stores the schema extension at `relative_path`, read as `file`, and puts
/// it into the map of the schema extensions.
fn create_or_update_schema_extension<P, R>(
    db: &mut Database<CompilerSource, P, R>,
    standard_sources: &mut StandardSources,
    relative_path: &String,
    file: Result<String, SourceError>,
) -> (r: Result<(), SourceError>)
    requires
        old(db)@.wf(),
        old(standard_sources).schema_extension_sources.wf(),
        old(db)@.epoch.0 < u64::MAX,
    ensures
        final(db)@.wf(),
        final(standard_sources).schema_extension_sources.wf(),
        final(standard_sources).schema_source_id == old(standard_sources).schema_source_id,
        final(db)@.epoch.0 <= old(db)@.epoch.0 + 1,
        (Step {
            engine: final(db)@,
            map: final(standard_sources).schema_extension_sources@,
            error: match r {
                Ok(_) => None,
                Err(e) => Some(e),
            },
        }) == store_step(
            old(db)@,
            old(standard_sources).schema_extension_sources@,
            SCHEMA_TAG,
            *relative_path,
            file,
        ),
{
    match store_file(
        db,
        &mut standard_sources.schema_extension_sources,
        SCHEMA_TAG,
        relative_path,
        file,
    ) {
        Ok(_) => Ok(()),
        Err(e) => Err(e),
    }
}

/// Stores the source file at `relative_path`, read as `file`, and puts it
/// into the map of the files that may hold literals.
fn create_or_update_iso_literals<P, R>(
    db: &mut Database<CompilerSource, P, R>,
    iso_literals: &mut PathMap,
    relative_path: &String,
    file: Result<String, SourceError>,
) -> (r: Result<(), SourceError>)
    requires
        old(db)@.wf(),
        old(iso_literals).wf(),
        old(db)@.epoch.0 < u64::MAX,
    ensures
        final(db)@.wf(),
        final(iso_literals).wf(),
        final(db)@.epoch.0 <= old(db)@.epoch.0 + 1,
        (Step {
            engine: final(db)@,
            map: final(iso_literals)@,
            error: match r {
                Ok(_) => None,
                Err(e) => Some(e),
            },
        }) == store_step(old(db)@, old(iso_literals)@, ISO_LITERALS_TAG, *relative_path, file),
{
    match store_file(db, iso_literals, ISO_LITERALS_TAG, relative_path, file) {
        Ok(_) => Ok(()),
        Err(e) => Err(e),
    }
}

/// The error of a result without a value.
pub open spec fn error_of(r: Result<(), SourceError>) -> Option<SourceError> {
    match r {
        Ok(_) => None,
        Err(e) => Some(e),
    }
}

/// Whether the configuration names a schema extension at `absolute_path`.
fn config_names_extension(config: &SourceConfig, absolute_path: &String) -> (b: bool)
    ensures
        b == names_extension(config.schema_extensions@, absolute_path@),
{
    let n = config.schema_extensions.len();
    let mut i: usize = 0;
    while i < n
        invariant
            i <= n,
            n == config.schema_extensions@.len(),
            forall|j: int|
                0 <= j < i ==> (#[trigger] config.schema_extensions@[j]).absolute_path@
                    != absolute_path@,
        decreases n - i,
    {
        if config.schema_extensions[i].absolute_path == *absolute_path {
            return true;
        }
        i = i + 1;
    }
    false
}

/// Applies an event about the schema: a created or modified schema is stored
/// anew; a schema that was renamed to anything but its configured path, or
/// removed, is an error.
pub fn handle_update_schema<P, R>(
    db: &mut Database<CompilerSource, P, R>,
    config: &SourceConfig,
    standard_sources: &mut StandardSources,
    event_kind: &SourceEventKind,
    file: Result<String, SourceError>,
) -> (r: Result<(), SourceError>)
    requires
        old(db)@.wf(),
        old(db)@.epoch.0 < u64::MAX,
    ensures
        final(db)@.wf(),
        final(db)@.epoch.0 <= old(db)@.epoch.0 + 1,
        final(db)@ == schema_step(old(db)@, *config, *event_kind, file).engine,
        error_of(r) == schema_step(old(db)@, *config, *event_kind, file).error,
        final(standard_sources).schema_extension_sources == old(standard_sources).schema_extension_sources,
        final(standard_sources).schema_source_id == (if event_kind is CreateOrModify && file is Ok {
            key_at(SCHEMA_TAG, config.schema.relative_path@)
        } else {
            old(standard_sources).schema_source_id
        }),
{
    match event_kind {
        SourceEventKind::CreateOrModify(_) => {
            let ghost before = db@;
            let schema = LoadedSchema {
                relative_path: config.schema.relative_path.clone(),
                content: file,
            };
            match read_schema(db, schema) {
                Ok(key) => {
                    proof {
                        lemma_after_set_bounds(before, key, schema_source_of(schema));
                    }
                    standard_sources.schema_source_id = key;
                    Ok(())
                },
                Err(e) => Err(e),
            }
        },
        SourceEventKind::Rename(_, target_path) => {
            if !(config.schema.absolute_path == target_path.absolute_path) {
                Err(SourceError::SchemaNotFound)
            } else {
                Ok(())
            }
        },
        SourceEventKind::Remove(_) => Err(SourceError::SchemaNotFound),
    }
}

/// Applies an event about a schema extension: a created or modified
/// extension is stored anew, and so is one renamed to a path that the
/// configuration names; one renamed to another path, or removed, leaves the
/// map.
pub fn handle_update_schema_extensions<P, R>(
    db: &mut Database<CompilerSource, P, R>,
    config: &SourceConfig,
    standard_sources: &mut StandardSources,
    event_kind: &SourceEventKind,
    file: Result<String, SourceError>,
) -> (r: Result<(), SourceError>)
    requires
        old(db)@.wf(),
        old(standard_sources).schema_extension_sources.wf(),
        old(db)@.epoch.0 < u64::MAX,
    ensures
        final(db)@.wf(),
        final(standard_sources).schema_extension_sources.wf(),
        final(standard_sources).schema_source_id == old(standard_sources).schema_source_id,
        final(db)@.epoch.0 <= old(db)@.epoch.0 + 1,
        (Step {
            engine: final(db)@,
            map: final(standard_sources).schema_extension_sources@,
            error: error_of(r),
        }) == extension_step(
            old(db)@,
            *config,
            old(standard_sources).schema_extension_sources@,
            *event_kind,
            file,
        ),
{
    match event_kind {
        SourceEventKind::CreateOrModify(path) => create_or_update_schema_extension(
            db,
            standard_sources,
            &path.relative_path,
            file,
        ),
        SourceEventKind::Rename(source_path, target_path) => {
            if config_names_extension(config, &target_path.absolute_path) {
                create_or_update_schema_extension(
                    db,
                    standard_sources,
                    &target_path.relative_path,
                    file,
                )
            } else {
                standard_sources.schema_extension_sources.remove(&source_path.relative_path);
                Ok(())
            }
        },
        SourceEventKind::Remove(path) => {
            standard_sources.schema_extension_sources.remove(&path.relative_path);
            Ok(())
        },
    }
}

/// Applies an event about a source file: a created or modified file is stored
/// anew; a renamed file leaves the map and, if the map held it, its target is
/// stored; a removed file leaves the map.
pub fn handle_update_source_file<P, R>(
    db: &mut Database<CompilerSource, P, R>,
    iso_literals: &mut PathMap,
    event_kind: &SourceEventKind,
    file: Result<String, SourceError>,
) -> (r: Result<(), SourceError>)
    requires
        old(db)@.wf(),
        old(iso_literals).wf(),
        old(db)@.epoch.0 < u64::MAX,
    ensures
        final(db)@.wf(),
        final(iso_literals).wf(),
        final(db)@.epoch.0 <= old(db)@.epoch.0 + 1,
        (Step { engine: final(db)@, map: final(iso_literals)@, error: error_of(r) }) == file_step(
            old(db)@,
            old(iso_literals)@,
            *event_kind,
            file,
        ),
{
    match event_kind {
        SourceEventKind::CreateOrModify(path) => create_or_update_iso_literals(
            db,
            iso_literals,
            &path.relative_path,
            file,
        ),
        SourceEventKind::Rename(source_path, target_path) => {
            if iso_literals.remove(&source_path.relative_path).is_some() {
                create_or_update_iso_literals(db, iso_literals, &target_path.relative_path, file)
            } else {
                assert(iso_literals@ =~= old(iso_literals)@);
                Ok(())
            }
        },
        SourceEventKind::Remove(path) => {
            iso_literals.remove(&path.relative_path);
            Ok(())
        },
    }
}

/// Applies an event about a folder of source files: the files read under a
/// created or modified folder are stored; a renamed folder first loses its
/// files from the map, and the files read under its target are stored; a
/// removed folder loses its files from the map.
pub fn handle_update_source_folder<P, R>(
    db: &mut Database<CompilerSource, P, R>,
    iso_literals: &mut PathMap,
    event_kind: &SourceEventKind,
    folder: Result<Vec<LoadedFile>, SourceError>,
) -> (r: Result<(), SourceError>)
    requires
        old(db)@.wf(),
        old(iso_literals).wf(),
        old(db)@.epoch.0 + (if folder is Ok {
            folder->Ok_0@.len() as int
        } else {
            0
        }) <= u64::MAX,
    ensures
        final(db)@.wf(),
        final(iso_literals).wf(),
        final(db)@.epoch.0 <= old(db)@.epoch.0 + (if folder is Ok {
            folder->Ok_0@.len() as int
        } else {
            0
        }),
        (Step { engine: final(db)@, map: final(iso_literals)@, error: error_of(r) }) == folder_step(
            old(db)@,
            old(iso_literals)@,
            *event_kind,
            folder,
        ),
{
    match event_kind {
        SourceEventKind::CreateOrModify(_) => {},
        SourceEventKind::Rename(source_path, _) => {
            remove_iso_literals_from_folder(iso_literals, &source_path.relative_path);
        },
        SourceEventKind::Remove(path) => {
            remove_iso_literals_from_folder(iso_literals, &path.relative_path);
            return Ok(());
        },
    }
    match folder {
        Ok(files) => {
            read_iso_literals_from_folder(db, iso_literals, files);
            Ok(())
        },
        Err(e) => Err(e),
    }
}

/// How far a run of events has come: the engine, the two maps as they will
/// be stored if all goes well, the errors so far, and which of the two maps
/// an event has touched.
pub struct Progress<P, R> {
    pub engine: State<CompilerSource, P, R>,
    pub schema_source_id: Key,
    pub extensions: Map<Seq<char>, Key>,
    pub literals: Map<Seq<char>, Key>,
    pub errors: Seq<SourceError>,
    pub standard_sources_modified: bool,
    pub iso_literal_map_modified: bool,
}

/// The errors with `error` added, if there is one.
pub open spec fn with_error(errors: Seq<SourceError>, error: Option<SourceError>) -> Seq<
    SourceError,
> {
    match error {
        Some(e) => errors.push(e),
        None => errors,
    }
}

/// The progress after one more event.
pub open spec fn advance<P, R>(
    progress: Progress<P, R>,
    config: SourceConfig,
    event: SourceFileEvent,
) -> Progress<P, R> {
    match event.changed {
        ChangedFileKind::Config => progress,
        ChangedFileKind::Schema => {
            let step = schema_step(progress.engine, config, event.kind, event.file);
            Progress {
                engine: step.engine,
                schema_source_id: if event.kind is CreateOrModify && event.file is Ok {
                    key_at(SCHEMA_TAG, config.schema.relative_path@)
                } else {
                    progress.schema_source_id
                },
                errors: with_error(progress.errors, step.error),
                standard_sources_modified: true,
                ..progress
            }
        },
        ChangedFileKind::SchemaExtension => {
            let step = extension_step(
                progress.engine,
                config,
                progress.extensions,
                event.kind,
                event.file,
            );
            Progress {
                engine: step.engine,
                extensions: step.map,
                errors: with_error(progress.errors, step.error),
                standard_sources_modified: true,
                ..progress
            }
        },
        ChangedFileKind::JavaScriptSourceFile => {
            let step = file_step(progress.engine, progress.literals, event.kind, event.file);
            Progress {
                engine: step.engine,
                literals: step.map,
                errors: with_error(progress.errors, step.error),
                iso_literal_map_modified: true,
                ..progress
            }
        },
        ChangedFileKind::JavaScriptSourceFolder => {
            let step = folder_step(progress.engine, progress.literals, event.kind, event.folder);
            Progress {
                engine: step.engine,
                literals: step.map,
                errors: with_error(progress.errors, step.error),
                iso_literal_map_modified: true,
                ..progress
            }
        },
    }
}

/// The progress after the first `n` of `events`, in their order.
pub open spec fn progress_after<P, R>(
    start: Progress<P, R>,
    config: SourceConfig,
    events: Seq<SourceFileEvent>,
    n: int,
) -> Progress<P, R>
    decreases n,
{
    if n <= 0 {
        start
    } else {
        advance(progress_after(start, config, events, n - 1), config, events[n - 1])
    }
}

/// How many sources the first `n` of `events` store at most.
pub open spec fn total_stores(events: Seq<SourceFileEvent>, n: int) -> int
    decreases n,
{
    if n <= 0 {
        0
    } else {
        total_stores(events, n - 1) + stores_of(events[n - 1])
    }
}

/// Later events only add to the number of sources stored.
pub proof fn lemma_total_stores_grows(events: Seq<SourceFileEvent>, n: int, m: int)
    requires
        0 <= n <= m,
    ensures
        0 <= total_stores(events, n) <= total_stores(events, m),
    decreases m,
{
    if n < m {
        lemma_total_stores_grows(events, n, m - 1);
    } else if n > 0 {
        lemma_total_stores_grows(events, n - 1, n - 1);
    }
}

/// The engine holds the two maps that say which sources the files of the
/// project are.
pub open spec fn holds_maps<P, R>(state: State<CompilerSource, P, R>) -> bool {
    let standard = key_of_kind(STANDARD_SOURCES_TAG);
    let literals = key_of_kind(ISO_LITERAL_MAP_TAG);
    &&& state.sources.contains_key(standard)
    &&& state.sources[standard].value is Standard
    &&& state.sources[standard].value->Standard_0.schema_extension_sources.wf()
    &&& state.sources.contains_key(literals)
    &&& state.sources[literals].value is Literals
    &&& state.sources[literals].value->Literals_0.0.wf()
}

/// Whether the engine holds the two maps that say which sources the files of
/// the project are, each with no path twice: what `update_sources` asks for.
pub fn sources_initialized<P, R>(db: &Database<CompilerSource, P, R>) -> (b: bool)
    ensures
        b == holds_maps(db@),
{
    let standard = match db.source_node(kind_key(STANDARD_SOURCES_TAG)) {
        Some(node) => match &node.value {
            CompilerSource::Standard(standard) => standard.schema_extension_sources.is_wf(),
            _ => false,
        },
        None => false,
    };
    let literals = match db.source_node(kind_key(ISO_LITERAL_MAP_TAG)) {
        Some(node) => match &node.value {
            CompilerSource::Literals(literals) => literals.0.is_wf(),
            _ => false,
        },
        None => false,
    };
    standard && literals
}

/// The progress before the first event: the engine as it is and the two maps
/// as it holds them.
pub open spec fn begin<P, R>(state: State<CompilerSource, P, R>) -> Progress<P, R> {
    let standard = state.sources[key_of_kind(STANDARD_SOURCES_TAG)].value->Standard_0;
    let literals = state.sources[key_of_kind(ISO_LITERAL_MAP_TAG)].value->Literals_0;
    Progress {
        engine: state,
        schema_source_id: standard.schema_source_id,
        extensions: standard.schema_extension_sources@,
        literals: literals.0@,
        errors: Seq::empty(),
        standard_sources_modified: false,
        iso_literal_map_modified: false,
    }
}

/// The engine with the two maps stored anew, each if an event has touched it.
pub open spec fn settled<P, R>(
    end: Progress<P, R>,
    standard: StandardSources,
    literals: PathMap,
) -> State<CompilerSource, P, R> {
    let with_standard = if end.standard_sources_modified {
        end.engine.after_set(
            key_of_kind(STANDARD_SOURCES_TAG),
            CompilerSource::Standard(standard),
        )
    } else {
        end.engine
    };
    if end.iso_literal_map_modified {
        with_standard.after_set(
            key_of_kind(ISO_LITERAL_MAP_TAG),
            CompilerSource::Literals(IsoLiteralMap(literals)),
        )
    } else {
        with_standard
    }
}

/// A copy of the map of the schema and its extensions that the engine holds.
fn get_standard_sources<P, R>(db: &Database<CompilerSource, P, R>) -> (standard: StandardSources)
    requires
        holds_maps(db@),
    ensures
        standard.schema_source_id == begin(db@).schema_source_id,
        standard.schema_extension_sources@ == begin(db@).extensions,
        standard.schema_extension_sources.wf(),
{
    let empty = StandardSources { schema_source_id: Key(0), schema_extension_sources: PathMap::new() };
    match db.source_node(kind_key(STANDARD_SOURCES_TAG)) {
        Some(node) => match &node.value {
            CompilerSource::Standard(standard) => StandardSources {
                schema_source_id: standard.schema_source_id,
                schema_extension_sources: standard.schema_extension_sources.duplicate(),
            },
            _ => empty,
        },
        None => empty,
    }
}

/// A copy of the map of the files that may hold literals that the engine
/// holds.
fn get_iso_literal_map<P, R>(db: &Database<CompilerSource, P, R>) -> (literals: PathMap)
    requires
        holds_maps(db@),
    ensures
        literals@ == begin(db@).literals,
        literals.wf(),
{
    match db.source_node(kind_key(ISO_LITERAL_MAP_TAG)) {
        Some(node) => match &node.value {
            CompilerSource::Literals(literals) => literals.0.duplicate(),
            _ => PathMap::new(),
        },
        None => PathMap::new(),
    }
}

/// Applies a run of events to the engine, in their order. Each event is
/// handled by the kind of file that it is about, and an event that fails
/// does not stop the run. If any has failed the errors are handed back
/// together and the two maps in the engine stay as they were; otherwise each
/// map that an event has touched is stored anew.
pub fn update_sources<P, R>(
    db: &mut Database<CompilerSource, P, R>,
    config: &SourceConfig,
    changes: Vec<SourceFileEvent>,
) -> (r: Result<(), SourceError>)
    requires
        old(db)@.wf(),
        holds_maps(old(db)@),
        forall|i: int|
            0 <= i < changes@.len() ==> (#[trigger] changes@[i]).changed != ChangedFileKind::Config,
        old(db)@.epoch.0 + total_stores(changes@, changes@.len() as int) + 2 <= u64::MAX,
    ensures
        final(db)@.wf(),
        ({
            let end = progress_after(begin(old(db)@), *config, changes@, changes@.len() as int);
            match r {
                Err(e) => {
                    &&& end.errors.len() > 0
                    &&& e matches SourceError::MultipleErrors { messages }
                    &&& messages@ == end.errors
                    &&& final(db)@ == end.engine
                },
                Ok(_) => {
                    &&& end.errors.len() == 0
                    &&& exists|standard: StandardSources, literals: PathMap|
                        {
                            &&& standard.schema_source_id == end.schema_source_id
                            &&& standard.schema_extension_sources.wf()
                            &&& standard.schema_extension_sources@ == end.extensions
                            &&& literals.wf()
                            &&& literals@ == end.literals
                            &&& final(db)@ == #[trigger] settled(end, standard, literals)
                        }
                },
            }
        }),
{
    let mut standard_sources = get_standard_sources(db);
    let mut standard_sources_modified = false;
    let mut iso_literal_map = get_iso_literal_map(db);
    let mut iso_literal_map_modified = false;
    let mut errors: Vec<SourceError> = Vec::new();
    let mut rest = changes;
    let total = rest.len();
    let mut done: usize = 0;
    let ghost start = begin(old(db)@);
    while rest.len() > 0
        invariant
            done + rest@.len() == total,
            total == changes@.len(),
            rest@ == changes@.subrange(done as int, total as int),
            forall|i: int|
                0 <= i < changes@.len() ==> (#[trigger] changes@[i]).changed
                    != ChangedFileKind::Config,
            old(db)@.epoch.0 + total_stores(changes@, total as int) + 2 <= u64::MAX,
            db@.wf(),
            db@.epoch.0 <= old(db)@.epoch.0 + total_stores(changes@, done as int),
            standard_sources.schema_extension_sources.wf(),
            iso_literal_map.wf(),
            progress_after(start, *config, changes@, done as int) == (Progress {
                engine: db@,
                schema_source_id: standard_sources.schema_source_id,
                extensions: standard_sources.schema_extension_sources@,
                literals: iso_literal_map@,
                errors: errors@,
                standard_sources_modified,
                iso_literal_map_modified,
            }),
        decreases rest@.len(),
    {
        let event = rest.remove(0);
        assert(event == changes@[done as int]);
        assert(rest@ =~= changes@.subrange(done + 1, total as int));
        proof {
            lemma_total_stores_grows(changes@, done as int, done as int);
            lemma_total_stores_grows(changes@, done + 1, total as int);
        }
        let SourceFileEvent { kind, changed, file, folder } = event;
        let outcome = match changed {
            ChangedFileKind::Config => Ok(()),
            ChangedFileKind::Schema => {
                standard_sources_modified = true;
                handle_update_schema(db, config, &mut standard_sources, &kind, file)
            },
            ChangedFileKind::SchemaExtension => {
                standard_sources_modified = true;
                handle_update_schema_extensions(db, config, &mut standard_sources, &kind, file)
            },
            ChangedFileKind::JavaScriptSourceFile => {
                iso_literal_map_modified = true;
                handle_update_source_file(db, &mut iso_literal_map, &kind, file)
            },
            ChangedFileKind::JavaScriptSourceFolder => {
                iso_literal_map_modified = true;
                handle_update_source_folder(db, &mut iso_literal_map, &kind, folder)
            },
        };
        match outcome {
            Ok(_) => {},
            Err(e) => {
                errors.push(e);
            },
        }
        done = done + 1;
    }
    let ghost end = progress_after(start, *config, changes@, total as int);
    if errors.len() > 0 {
        Err(SourceError::MultipleErrors { messages: errors })
    } else {
        let ghost stored_standard = standard_sources;
        let ghost stored_literals = iso_literal_map;
        proof {
            lemma_total_stores_grows(changes@, total as int, total as int);
        }
        if standard_sources_modified {
            let source = CompilerSource::Standard(standard_sources);
            let key = source.source_key();
            proof {
                lemma_after_set_bounds(db@, key, source);
            }
            db.set_at(key, source);
        }
        if iso_literal_map_modified {
            let source = CompilerSource::Literals(IsoLiteralMap(iso_literal_map));
            let key = source.source_key();
            db.set_at(key, source);
        }
        proof {
            assert(db@ == settled(end, stored_standard, stored_literals));
        }
        Ok(())
    }
}

} // verus!
