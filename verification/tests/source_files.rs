use pico::path_map::{lies_under, PathMap};
use pico::paths::{absolute_and_relative_paths, PathPair};
use pico::compiler_source::{
    file_key, kind_key, CompilerSource, StandardSources, ISO_LITERALS_TAG, ISO_LITERAL_MAP_TAG,
    SCHEMA_TAG, STANDARD_SOURCES_TAG,
};
use pico::path_map::PathEntry;
use pico::source_files::{
    handle_update_schema, initialize_sources, remove_iso_literals_from_folder,
    sources_initialized, update_sources, InitialFiles, LoadedFile, LoadedSchema, SourceError,
};
use pico::watch::{ChangedFileKind, SourceConfig, SourceEventKind, SourceFileEvent};
use pico::{Database, Epoch, Key, Source};

type Db = Database<CompilerSource, u64, u64>;

fn text(s: &str) -> String {
    s.to_string()
}

fn pair(relative: &str) -> PathPair {
    PathPair { absolute_path: format!("/project/{}", relative), relative_path: text(relative) }
}

fn loaded(path: &str, content: &str) -> LoadedFile {
    LoadedFile { relative_path: text(path), content: text(content) }
}

fn config() -> SourceConfig {
    SourceConfig { schema: pair("schema.graphql"), schema_extensions: vec![pair("ext.graphql")] }
}

fn initial() -> InitialFiles {
    InitialFiles {
        schema: LoadedSchema { relative_path: text("schema.graphql"), content: Ok(text("type Query")) },
        schema_extensions: vec![LoadedSchema {
            relative_path: text("ext.graphql"),
            content: Ok(text("extend type Query")),
        }],
        iso_literals: Ok(vec![loaded("src/a.ts", "iso a"), loaded("src/b.ts", "iso b")]),
    }
}

fn filled() -> Db {
    let mut db = Db::new();
    assert!(initialize_sources(&mut db, initial()).is_ok());
    db
}

fn event(kind: SourceEventKind, changed: ChangedFileKind) -> SourceFileEvent {
    SourceFileEvent {
        kind,
        changed,
        file: Err(SourceError::ReadFileError { error: text("not read") }),
        folder: Err(SourceError::ReadFileError { error: text("not read") }),
    }
}

fn with_file(mut e: SourceFileEvent, content: &str) -> SourceFileEvent {
    e.file = Ok(text(content));
    e
}

fn literal_key(path: &str) -> Key {
    file_key(ISO_LITERALS_TAG, &text(path))
}

fn literals(db: &Db) -> &PathMap {
    match &db.source_node(kind_key(ISO_LITERAL_MAP_TAG)).unwrap().value {
        CompilerSource::Literals(map) => &map.0,
        other => panic!("not the map of literals: {:?}", other),
    }
}

fn standard(db: &Db) -> &StandardSources {
    match &db.source_node(kind_key(STANDARD_SOURCES_TAG)).unwrap().value {
        CompilerSource::Standard(standard) => standard,
        other => panic!("not the standard sources: {:?}", other),
    }
}

fn content_of(db: &Db, key: Key) -> String {
    match &db.source_node(key).unwrap().value {
        CompilerSource::IsoLiterals(file) => file.content.clone(),
        CompilerSource::Schema(schema) => schema.content.clone(),
        other => panic!("not a file: {:?}", other),
    }
}

#[test]
fn initialize_stores_every_file_and_both_maps() {
    let db = filled();
    assert_eq!(db.current_epoch(), Epoch(7));
    assert_eq!(content_of(&db, file_key(SCHEMA_TAG, &text("schema.graphql"))), "type Query");
    assert_eq!(content_of(&db, file_key(SCHEMA_TAG, &text("ext.graphql"))), "extend type Query");
    assert_eq!(content_of(&db, literal_key("src/a.ts")), "iso a");
    assert_eq!(content_of(&db, literal_key("src/b.ts")), "iso b");
    let map = literals(&db);
    assert_eq!(map.len(), 2);
    assert_eq!(map.get(&text("src/a.ts")), Some(literal_key("src/a.ts")));
    assert_eq!(map.get(&text("src/b.ts")), Some(literal_key("src/b.ts")));
    assert_eq!(map.get(&text("src/c.ts")), None);
    let standard = standard(&db);
    assert_eq!(standard.schema_source_id, file_key(SCHEMA_TAG, &text("schema.graphql")));
    assert_eq!(
        standard.schema_extension_sources.get(&text("ext.graphql")),
        Some(file_key(SCHEMA_TAG, &text("ext.graphql")))
    );
}

#[test]
fn initialize_stops_at_an_unreadable_schema() {
    let mut db = Db::new();
    let mut files = initial();
    files.schema.content = Err(SourceError::SchemaNotFound);
    assert!(matches!(initialize_sources(&mut db, files), Err(SourceError::SchemaNotFound)));
    assert_eq!(db.current_epoch(), Epoch(1));
    assert!(!db.contains_source(kind_key(STANDARD_SOURCES_TAG)));
}

#[test]
fn initialize_stops_at_an_unreadable_extension_after_the_schema() {
    let mut db = Db::new();
    let mut files = initial();
    files.schema_extensions[0].content =
        Err(SourceError::SchemaNotAFile { path: text("ext.graphql") });
    let outcome = initialize_sources(&mut db, files);
    assert!(matches!(outcome, Err(SourceError::SchemaNotAFile { path }) if path == "ext.graphql"));
    assert_eq!(db.current_epoch(), Epoch(2));
    assert!(db.contains_source(file_key(SCHEMA_TAG, &text("schema.graphql"))));
    assert!(!db.contains_source(kind_key(ISO_LITERAL_MAP_TAG)));
}

#[test]
fn initialize_stops_at_unreadable_literals() {
    let mut db = Db::new();
    let mut files = initial();
    files.iso_literals = Err(SourceError::ReadFileError { error: text("no folder") });
    let outcome = initialize_sources(&mut db, files);
    assert!(matches!(outcome, Err(SourceError::ReadFileError { error }) if error == "no folder"));
    assert_eq!(db.current_epoch(), Epoch(3));
}

#[test]
fn modified_source_file_is_stored_anew() {
    let mut db = filled();
    let change = with_file(
        event(SourceEventKind::CreateOrModify(pair("src/a.ts")), ChangedFileKind::JavaScriptSourceFile),
        "iso a2",
    );
    assert!(update_sources(&mut db, &config(), vec![change]).is_ok());
    assert_eq!(content_of(&db, literal_key("src/a.ts")), "iso a2");
    assert_eq!(db.source_node(literal_key("src/a.ts")).unwrap().time_updated, Epoch(8));
    assert_eq!(literals(&db).len(), 2);
    assert_eq!(db.source_node(kind_key(ISO_LITERAL_MAP_TAG)).unwrap().time_updated, Epoch(7));
    assert_eq!(db.current_epoch(), Epoch(8));
}

#[test]
fn unchanged_source_file_changes_nothing() {
    let mut db = filled();
    let change = with_file(
        event(SourceEventKind::CreateOrModify(pair("src/a.ts")), ChangedFileKind::JavaScriptSourceFile),
        "iso a",
    );
    assert!(update_sources(&mut db, &config(), vec![change]).is_ok());
    assert_eq!(db.current_epoch(), Epoch(7));
}

#[test]
fn new_source_file_enters_the_map() {
    let mut db = filled();
    let change = with_file(
        event(SourceEventKind::CreateOrModify(pair("src/c.ts")), ChangedFileKind::JavaScriptSourceFile),
        "iso c",
    );
    assert!(update_sources(&mut db, &config(), vec![change]).is_ok());
    assert_eq!(literals(&db).get(&text("src/c.ts")), Some(literal_key("src/c.ts")));
    assert_eq!(literals(&db).len(), 3);
    assert_eq!(db.current_epoch(), Epoch(9));
}

#[test]
fn renamed_source_file_moves_in_the_map() {
    let mut db = filled();
    let change = with_file(
        event(
            SourceEventKind::Rename(pair("src/a.ts"), pair("src/z.ts")),
            ChangedFileKind::JavaScriptSourceFile,
        ),
        "iso a",
    );
    assert!(update_sources(&mut db, &config(), vec![change]).is_ok());
    assert_eq!(literals(&db).get(&text("src/a.ts")), None);
    assert_eq!(literals(&db).get(&text("src/z.ts")), Some(literal_key("src/z.ts")));
    assert_eq!(content_of(&db, literal_key("src/z.ts")), "iso a");
}

#[test]
fn renamed_unknown_source_file_is_passed_over() {
    let mut db = filled();
    let change = event(
        SourceEventKind::Rename(pair("src/q.ts"), pair("src/z.ts")),
        ChangedFileKind::JavaScriptSourceFile,
    );
    assert!(update_sources(&mut db, &config(), vec![change]).is_ok());
    assert_eq!(literals(&db).get(&text("src/z.ts")), None);
    assert_eq!(db.current_epoch(), Epoch(7));
}

#[test]
fn removed_source_file_leaves_the_map() {
    let mut db = filled();
    let change =
        event(SourceEventKind::Remove(pair("src/a.ts")), ChangedFileKind::JavaScriptSourceFile);
    assert!(update_sources(&mut db, &config(), vec![change]).is_ok());
    assert_eq!(literals(&db).get(&text("src/a.ts")), None);
    assert_eq!(literals(&db).len(), 1);
    assert!(db.contains_source(literal_key("src/a.ts")));
}

#[test]
fn removed_folder_takes_its_files_out_of_the_map() {
    let mut db = filled();
    let mut add = event(
        SourceEventKind::CreateOrModify(pair("lib")),
        ChangedFileKind::JavaScriptSourceFolder,
    );
    add.folder = Ok(vec![loaded("lib/x.ts", "iso x")]);
    let remove =
        event(SourceEventKind::Remove(pair("src")), ChangedFileKind::JavaScriptSourceFolder);
    assert!(update_sources(&mut db, &config(), vec![add, remove]).is_ok());
    assert_eq!(literals(&db).len(), 1);
    assert_eq!(literals(&db).get(&text("lib/x.ts")), Some(literal_key("lib/x.ts")));
}

#[test]
fn renamed_folder_is_read_again_under_its_target() {
    let mut db = filled();
    let mut rename = event(
        SourceEventKind::Rename(pair("src"), pair("app")),
        ChangedFileKind::JavaScriptSourceFolder,
    );
    rename.folder = Ok(vec![loaded("app/a.ts", "iso a"), loaded("app/b.ts", "iso b")]);
    assert!(update_sources(&mut db, &config(), vec![rename]).is_ok());
    assert_eq!(literals(&db).len(), 2);
    assert_eq!(literals(&db).get(&text("src/a.ts")), None);
    assert_eq!(literals(&db).get(&text("app/b.ts")), Some(literal_key("app/b.ts")));
}

#[test]
fn schema_events() {
    let mut db = filled();
    let modified = with_file(
        event(SourceEventKind::CreateOrModify(pair("schema.graphql")), ChangedFileKind::Schema),
        "type Query { a: Int }",
    );
    let renamed_in_place = event(
        SourceEventKind::Rename(pair("old.graphql"), pair("schema.graphql")),
        ChangedFileKind::Schema,
    );
    assert!(update_sources(&mut db, &config(), vec![modified, renamed_in_place]).is_ok());
    assert_eq!(
        content_of(&db, file_key(SCHEMA_TAG, &text("schema.graphql"))),
        "type Query { a: Int }"
    );
    let removed =
        event(SourceEventKind::Remove(pair("schema.graphql")), ChangedFileKind::Schema);
    let renamed_away = event(
        SourceEventKind::Rename(pair("schema.graphql"), pair("other.graphql")),
        ChangedFileKind::Schema,
    );
    match update_sources(&mut db, &config(), vec![removed, renamed_away]) {
        Err(SourceError::MultipleErrors { messages }) => {
            assert_eq!(messages.len(), 2);
            assert!(matches!(messages[0], SourceError::SchemaNotFound));
            assert!(matches!(messages[1], SourceError::SchemaNotFound));
        }
        other => panic!("unexpected outcome: {:?}", other),
    }
}

#[test]
fn schema_extension_events() {
    let mut db = filled();
    let added = with_file(
        event(
            SourceEventKind::CreateOrModify(pair("more.graphql")),
            ChangedFileKind::SchemaExtension,
        ),
        "extend type Query { b: Int }",
    );
    assert!(update_sources(&mut db, &config(), vec![added]).is_ok());
    let more = file_key(SCHEMA_TAG, &text("more.graphql"));
    assert_eq!(standard(&db).schema_extension_sources.get(&text("more.graphql")), Some(more));
    let renamed_to_configured = with_file(
        event(
            SourceEventKind::Rename(pair("more.graphql"), pair("ext.graphql")),
            ChangedFileKind::SchemaExtension,
        ),
        "extend type Query { c: Int }",
    );
    assert!(update_sources(&mut db, &config(), vec![renamed_to_configured]).is_ok());
    assert_eq!(
        content_of(&db, file_key(SCHEMA_TAG, &text("ext.graphql"))),
        "extend type Query { c: Int }"
    );
    assert_eq!(standard(&db).schema_extension_sources.len(), 2);
    let renamed_away = event(
        SourceEventKind::Rename(pair("more.graphql"), pair("gone.graphql")),
        ChangedFileKind::SchemaExtension,
    );
    let removed =
        event(SourceEventKind::Remove(pair("ext.graphql")), ChangedFileKind::SchemaExtension);
    assert!(update_sources(&mut db, &config(), vec![renamed_away, removed]).is_ok());
    assert_eq!(standard(&db).schema_extension_sources.len(), 0);
}

#[test]
fn errors_are_collected_and_the_maps_left_alone() {
    let mut db = filled();
    let good = with_file(
        event(SourceEventKind::CreateOrModify(pair("src/c.ts")), ChangedFileKind::JavaScriptSourceFile),
        "iso c",
    );
    let bad = event(
        SourceEventKind::CreateOrModify(pair("src/d.ts")),
        ChangedFileKind::JavaScriptSourceFile,
    );
    let gone = event(SourceEventKind::Remove(pair("schema.graphql")), ChangedFileKind::Schema);
    match update_sources(&mut db, &config(), vec![good, bad, gone]) {
        Err(SourceError::MultipleErrors { messages }) => {
            assert_eq!(messages.len(), 2);
            assert!(matches!(&messages[0], SourceError::ReadFileError { error } if error == "not read"));
            assert!(matches!(messages[1], SourceError::SchemaNotFound));
        }
        other => panic!("unexpected outcome: {:?}", other),
    }
    assert_eq!(content_of(&db, literal_key("src/c.ts")), "iso c");
    assert_eq!(literals(&db).len(), 2);
    assert_eq!(literals(&db).get(&text("src/c.ts")), None);
}

#[test]
fn handler_reports_a_schema_renamed_away() {
    let mut db = filled();
    let mut standard =
        StandardSources { schema_source_id: Key(0), schema_extension_sources: PathMap::new() };
    let kind = SourceEventKind::Rename(pair("schema.graphql"), pair("elsewhere.graphql"));
    let outcome = handle_update_schema(&mut db, &config(), &mut standard, &kind, Ok(text("x")));
    assert!(matches!(outcome, Err(SourceError::SchemaNotFound)));
    assert_eq!(standard.schema_source_id, Key(0));
}

#[test]
fn folder_removal_goes_by_the_beginning_of_the_path() {
    let mut map = PathMap::new();
    map.insert(text("src/a.ts"), Key(1));
    map.insert(text("src2/b.ts"), Key(2));
    map.insert(text("lib/src/c.ts"), Key(3));
    remove_iso_literals_from_folder(&mut map, &text("src"));
    assert_eq!(map.len(), 1);
    assert_eq!(map.get(&text("lib/src/c.ts")), Some(Key(3)));
    assert!(lies_under(&text("src/a.ts"), &text("src/")));
    assert!(lies_under(&text("src"), &text("")));
    assert!(!lies_under(&text("sr"), &text("src")));
    assert!(!lies_under(&text("lib/src"), &text("src")));
}

#[test]
fn path_map_holds_one_key_per_path() {
    let mut map = PathMap::new();
    map.insert(text("a"), Key(1));
    map.insert(text("b"), Key(2));
    map.insert(text("a"), Key(3));
    assert_eq!(map.len(), 2);
    assert_eq!(map.get(&text("a")), Some(Key(3)));
    assert_eq!(map.remove(&text("a")), Some(Key(3)));
    assert_eq!(map.remove(&text("a")), None);
    assert_eq!(map.find(&text("b")), Some(0));
}

#[test]
fn path_maps_are_equal_whatever_their_order() {
    let mut one = PathMap::new();
    one.insert(text("a"), Key(1));
    one.insert(text("b"), Key(2));
    let mut other = PathMap::new();
    other.insert(text("b"), Key(2));
    other.insert(text("a"), Key(1));
    assert!(one == other);
    assert!(one == one.duplicate());
    other.insert(text("a"), Key(7));
    assert!(one != other);
    other.remove(&text("a"));
    assert!(one != other);
}

#[test]
fn sources_of_different_kinds_have_different_keys() {
    let path = text("schema.graphql");
    assert_ne!(file_key(SCHEMA_TAG, &path), file_key(ISO_LITERALS_TAG, &path));
    assert_ne!(kind_key(STANDARD_SOURCES_TAG), kind_key(ISO_LITERAL_MAP_TAG));
    assert_eq!(file_key(SCHEMA_TAG, &path), file_key(SCHEMA_TAG, &text("schema.graphql")));
    let source = CompilerSource::Literals(pico::IsoLiteralMap(PathMap::new()));
    assert_eq!(source.get_key(), kind_key(ISO_LITERAL_MAP_TAG));
}

#[test]
fn relative_paths_come_from_the_working_directory() {
    let cwd = text("/foo/bar");
    let pair = absolute_and_relative_paths(&cwd, text("/foo/bar/baz/q.ts")).unwrap();
    assert_eq!(pair.absolute_path, "/foo/bar/baz/q.ts");
    assert_eq!(pair.relative_path, "baz/q.ts");
    let up = absolute_and_relative_paths(&cwd, text("/foo/quux")).unwrap();
    assert_eq!(up.relative_path, "../quux");
    assert!(absolute_and_relative_paths(&cwd, text("relative/q.ts")).is_none());
}

#[test]
fn the_maps_are_there_once_the_engine_is_filled() {
    let mut db = Db::new();
    assert!(!sources_initialized(&db));
    assert!(initialize_sources(&mut db, initial()).is_ok());
    assert!(sources_initialized(&db));
    let twice = PathMap {
        entries: vec![
            PathEntry { path: text("a"), source: Key(1) },
            PathEntry { path: text("b"), source: Key(2) },
            PathEntry { path: text("a"), source: Key(3) },
        ],
    };
    assert!(!twice.is_wf());
    assert!(literals(&db).is_wf());
    db.set(CompilerSource::Literals(pico::IsoLiteralMap(twice)));
    assert!(!sources_initialized(&db));
}
