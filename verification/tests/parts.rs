use pico::memo::{collect_dependencies, refresh_node, source_node_changed_since};
use pico::{
    memo, register_dependency_in_parent_memoized_fn, Database, Dependency, DerivedNode,
    DerivedNodeId, DidRecalculate, EngineError, Epoch, Key, NodeKind, ParamId, Source, SourceId,
};
use std::cell::Cell;

#[derive(Debug, PartialEq)]
struct Text {
    name: u64,
    body: String,
}

impl Source for Text {
    fn key(&self) -> Key {
        Key(self.name)
    }

    fn get_key(&self) -> Key {
        self.key()
    }
}

type Db = Database<Text, (u64, String), usize>;

fn doc(name: u64, body: &str) -> Text {
    Text { name, body: body.to_string() }
}

fn source_dep(key: u64, at: u64) -> Dependency {
    Dependency { node_to: NodeKind::Source(Key(key)), time_verified_or_updated: Epoch(at) }
}

fn length_of(db: &mut Db, key: Key, param: ParamId) -> Result<usize, EngineError> {
    let name = db.param(param)?.0;
    let _ = key;
    Ok(db.get(SourceId::<Text>::from_key(Key(name)))?.body.len())
}

#[test]
fn the_clock_starts_at_one_and_only_moves_forward() {
    assert_eq!(Epoch::new(), Epoch(1));
    let mut e = Epoch::new();
    assert_eq!(e.increment(), Epoch(2));
    assert_eq!(e, Epoch(2));
    assert_eq!(Epoch(3).max(Epoch(5)), Epoch(5));
    assert_eq!(Epoch(5).max(Epoch(3)), Epoch(5));
    let db = Db::new();
    assert_eq!(db.current_epoch(), Epoch(1));
}

#[test]
fn set_advances_the_epoch_only_on_change() {
    let mut db = Db::new();
    let id = db.set(doc(7, "one"));
    assert_eq!(id.key, Key(7));
    assert_eq!(db.current_epoch(), Epoch(2));
    assert_eq!(db.source_node(Key(7)).unwrap().time_updated, Epoch(2));
    db.set(doc(7, "one"));
    assert_eq!(db.current_epoch(), Epoch(2));
    db.set(doc(7, "two"));
    assert_eq!(db.current_epoch(), Epoch(3));
    assert_eq!(db.source_node(Key(7)).unwrap().time_updated, Epoch(3));
    assert_eq!(db.source_node(Key(7)).unwrap().value.body, "two");
    db.set_at(Key(9), doc(7, "elsewhere"));
    assert_eq!(db.current_epoch(), Epoch(4));
    assert!(db.contains_source(Key(9)));
}

#[test]
fn remove_always_advances_the_epoch() {
    let mut db = Db::new();
    let id = db.set(doc(7, "one"));
    db.remove(id);
    assert_eq!(db.current_epoch(), Epoch(3));
    assert!(!db.contains_source(Key(7)));
    assert_eq!(db.get(id), Err(EngineError::SourceNotFound));
    db.remove(id);
    assert_eq!(db.current_epoch(), Epoch(4));
}

#[test]
fn reads_do_not_advance_the_epoch() {
    let mut db = Db::new();
    let id = db.set(doc(7, "one"));
    assert_eq!(db.get(id).unwrap().body, "one");
    assert_eq!(db.get(SourceId::<Text>::new(&doc(7, "any"))).unwrap().body, "one");
    assert_eq!(db.intern((7, "x".to_string())), ParamId(0));
    assert_eq!(db.current_epoch(), Epoch(2));
    assert_eq!(db.stack_depth(), 0);
}

#[test]
fn equal_parameters_share_a_handle() {
    let mut db = Db::new();
    let a = db.intern((1, "a".to_string()));
    let b = db.intern((1, "b".to_string()));
    let again = db.intern((1, "a".to_string()));
    assert_eq!(a, ParamId(0));
    assert_eq!(b, ParamId(1));
    assert_eq!(again, a);
    assert_eq!(db.param(b), Ok(&(1, "b".to_string())));
    assert!(db.is_interned(b));
    assert!(!db.is_interned(ParamId(2)));
    assert_eq!(db.param(ParamId(2)), Err(EngineError::SourceNotFound));
    assert_eq!(db.check_interned(ParamId(2)), Err(EngineError::ParamNotFound));
    assert_eq!(db.check_interned(a), Ok(()));
}

#[test]
fn errors_have_messages() {
    assert_eq!(EngineError::SourceNotFound.message(), "source not found");
    assert_eq!(EngineError::ParamNotFound.message(), "parameter not found");
    assert_eq!(EngineError::TooDeep.message(), "dependencies nested too deeply");
    assert_eq!(EngineError::Cycle.message(), "a memoized function depends on itself");
}

#[test]
fn a_frame_is_split_into_dependencies_and_the_latest_update() {
    let (deps, latest) = collect_dependencies(vec![
        (Epoch(2), source_dep(1, 5)),
        (Epoch(4), source_dep(2, 5)),
        (Epoch(3), source_dep(3, 5)),
    ]);
    assert_eq!(deps, vec![source_dep(1, 5), source_dep(2, 5), source_dep(3, 5)]);
    assert_eq!(latest, Epoch(4));
    let (none, first) = collect_dependencies(vec![]);
    assert!(none.is_empty());
    assert_eq!(first, Epoch(1));
}

#[test]
fn an_equal_value_keeps_the_time_of_update() {
    let mut node = DerivedNode {
        time_verified: Epoch(2),
        time_updated: Epoch(2),
        dependencies: vec![source_dep(1, 2)],
        inner_fn: Key(9),
        value: 10usize,
    };
    let did = refresh_node(&mut node, 10, vec![source_dep(1, 5)], Epoch(4), Epoch(5));
    assert_eq!(did, DidRecalculate::ReusedMemoizedValue);
    assert!(!did.is_recalculated());
    assert_eq!((node.time_updated, node.time_verified, node.value), (Epoch(2), Epoch(5), 10));
    assert_eq!(node.dependencies, vec![source_dep(1, 5)]);
    let did = refresh_node(&mut node, 11, vec![], Epoch(6), Epoch(7));
    assert_eq!(did, DidRecalculate::Recalculated);
    assert!(did.is_recalculated());
    assert_eq!((node.time_updated, node.time_verified, node.value), (Epoch(6), Epoch(7), 11));
    assert!(node.dependencies.is_empty());
    assert_eq!(node.inner_fn, Key(9));
}

#[test]
fn a_source_has_changed_when_it_was_stored_after_the_record() {
    let mut db = Db::new();
    db.set(doc(7, "one"));
    assert_eq!(source_node_changed_since(&db, Key(7), Epoch(1)), Ok(true));
    assert_eq!(source_node_changed_since(&db, Key(7), Epoch(2)), Ok(false));
    assert_eq!(source_node_changed_since(&db, Key(8), Epoch(2)), Err(EngineError::SourceNotFound));
}

#[test]
fn nothing_is_recorded_outside_a_user_function() {
    let mut db = Db::new();
    db.set(doc(7, "one"));
    register_dependency_in_parent_memoized_fn(&mut db, NodeKind::Source(Key(7)), Epoch(2), Epoch(2));
    assert_eq!(db.stack_depth(), 0);
}

#[test]
fn a_call_records_its_reads_in_their_order() {
    let mut db = Db::new();
    db.set(doc(7, "seven"));
    db.set(doc(8, "eight!"));
    let param = db.intern((0, String::new()));
    let both = |db: &mut Db, _: Key, _: ParamId| -> Result<usize, EngineError> {
        let eight = db.get(SourceId::<Text>::from_key(Key(8)))?.body.len();
        let seven = db.get(SourceId::<Text>::from_key(Key(7)))?.body.len();
        assert_eq!(db.stack_depth(), 1);
        Ok(eight + seven)
    };
    let id = DerivedNodeId { key: Key(50), param_id: param };
    assert_eq!(memo(&mut db, id, &both), Ok(DidRecalculate::Recalculated));
    let node = db.derived_node(id).unwrap();
    assert_eq!(node.value, 11);
    assert_eq!(node.dependencies, vec![source_dep(8, 3), source_dep(7, 3)]);
    assert_eq!((node.time_updated, node.time_verified), (Epoch(3), Epoch(3)));
    assert_eq!(node.inner_fn, Key(50));
    assert!(db.contains_derived(id));
    assert_eq!(db.stack_depth(), 0);
}

#[test]
fn the_time_of_update_is_the_latest_among_the_callees() {
    let mut db = Db::new();
    db.set(doc(7, "seven"));
    db.set(doc(8, "eight!"));
    let seven = db.intern((7, String::new()));
    let id = DerivedNodeId { key: Key(50), param_id: seven };
    assert_eq!(memo(&mut db, id, &length_of), Ok(DidRecalculate::Recalculated));
    let node = db.derived_node(id).unwrap();
    assert_eq!(node.value, 5);
    assert_eq!(node.dependencies, vec![source_dep(7, 3)]);
    assert_eq!((node.time_updated, node.time_verified), (Epoch(2), Epoch(3)));
}

#[test]
fn a_call_without_reads_counts_as_updated_at_the_first_epoch() {
    let mut db = Db::new();
    db.set(doc(7, "seven"));
    let param = db.intern((0, String::new()));
    let constant = |_: &mut Db, _: Key, _: ParamId| -> Result<usize, EngineError> { Ok(42) };
    let id = DerivedNodeId { key: Key(51), param_id: param };
    assert_eq!(memo(&mut db, id, &constant), Ok(DidRecalculate::Recalculated));
    let node = db.derived_node(id).unwrap();
    assert_eq!((node.time_updated, node.time_verified), (Epoch(1), Epoch(2)));
    assert!(node.dependencies.is_empty());
    assert_eq!(memo(&mut db, id, &constant), Ok(DidRecalculate::ReusedMemoizedValue));
}

#[test]
fn calls_with_different_parameters_are_different_nodes() {
    let mut db = Db::new();
    db.set(doc(7, "seven"));
    db.set(doc(8, "eight!"));
    let seven = db.intern((7, String::new()));
    let eight = db.intern((8, String::new()));
    let runs = Cell::new(0);
    let counted = |db: &mut Db, key: Key, param: ParamId| {
        runs.set(runs.get() + 1);
        length_of(db, key, param)
    };
    let for_seven = DerivedNodeId { key: Key(50), param_id: seven };
    let for_eight = DerivedNodeId { key: Key(50), param_id: eight };
    assert_eq!(memo(&mut db, for_seven, &counted), Ok(DidRecalculate::Recalculated));
    assert_eq!(memo(&mut db, for_eight, &counted), Ok(DidRecalculate::Recalculated));
    assert_eq!(db.derived_node(for_seven).unwrap().value, 5);
    assert_eq!(db.derived_node(for_eight).unwrap().value, 6);
    db.set(doc(8, "eight"));
    assert_eq!(memo(&mut db, for_seven, &counted), Ok(DidRecalculate::ReusedMemoizedValue));
    assert_eq!(memo(&mut db, for_eight, &counted), Ok(DidRecalculate::Recalculated));
    assert_eq!(runs.get(), 3);
}

#[test]
fn a_failing_user_function_installs_nothing_and_leaves_no_frame() {
    let mut db = Db::new();
    let param = db.intern((9, String::new()));
    let id = DerivedNodeId { key: Key(50), param_id: param };
    assert_eq!(memo(&mut db, id, &length_of), Err(EngineError::SourceNotFound));
    assert!(!db.contains_derived(id));
    assert_eq!(db.stack_depth(), 0);
    let missing = DerivedNodeId { key: Key(50), param_id: ParamId(5) };
    assert_eq!(memo(&mut db, missing, &length_of), Err(EngineError::SourceNotFound));
    assert!(db.derived_node(missing).is_none());
}

#[test]
fn a_nested_call_is_recorded_in_the_frame_of_its_caller() {
    let mut db = Db::new();
    db.set(doc(7, "seven"));
    let seven = db.intern((7, String::new()));
    let inner = DerivedNodeId { key: Key(50), param_id: seven };
    let outer = DerivedNodeId { key: Key(60), param_id: seven };
    let twice = move |db: &mut Db, key: Key, param: ParamId| -> Result<usize, EngineError> {
        if key == Key(60) {
            memo(db, inner, &length_of)?;
            Ok(db.derived_node(inner).unwrap().value * 2)
        } else {
            length_of(db, key, param)
        }
    };
    assert_eq!(memo(&mut db, outer, &twice), Ok(DidRecalculate::Recalculated));
    let node = db.derived_node(outer).unwrap();
    assert_eq!(node.value, 10);
    assert_eq!(
        node.dependencies,
        vec![Dependency { node_to: NodeKind::Derived(inner), time_verified_or_updated: Epoch(2) }]
    );
    assert_eq!(node.time_updated, Epoch(2));
}

#[test]
fn a_handle_wraps_the_key_of_its_source() {
    let id: SourceId<Text> = SourceId::new(&doc(7, "one"));
    assert_eq!(id.key, Key(7));
    assert_eq!(id, SourceId::from_key(Key(7)));
    let other: SourceId<Text> = SourceId::new(&doc(8, "one"));
    assert_eq!(other.key, Key(8));
    let mut db = Db::new();
    assert_eq!(db.set(doc(8, "one")), other);
}

#[test]
fn a_dependency_on_a_node_that_is_not_stored_is_computed_when_asked() {
    let mut db = Db::new();
    db.set(doc(7, "seven"));
    let seven = db.intern((7, String::new()));
    let inner = DerivedNodeId { key: Key(50), param_id: seven };
    let outer = DerivedNodeId { key: Key(60), param_id: seven };
    let runs = Cell::new(0);
    let functions = |db: &mut Db, key: Key, param: ParamId| -> Result<usize, EngineError> {
        if key == Key(60) {
            let now = db.current_epoch();
            register_dependency_in_parent_memoized_fn(db, NodeKind::Derived(inner), Epoch(1), now);
            Ok(1)
        } else {
            runs.set(runs.get() + 1);
            length_of(db, key, param)
        }
    };
    assert_eq!(memo(&mut db, outer, &functions), Ok(DidRecalculate::Recalculated));
    assert!(!db.contains_derived(inner));
    db.set(doc(8, "eight"));
    assert_eq!(memo(&mut db, outer, &functions), Ok(DidRecalculate::ReusedMemoizedValue));
    assert!(db.contains_derived(inner));
    assert_eq!(db.derived_node(inner).unwrap().value, 5);
    assert_eq!(db.derived_node(inner).unwrap().time_verified, Epoch(3));
    assert_eq!(runs.get(), 1);
}
