use pico::{
    memo, memo_within, Database, DerivedNodeId, DidRecalculate, EngineError, Epoch, Key, ParamId,
    Source, SourceId,
};
use std::cell::Cell;

#[derive(Debug, PartialEq)]
struct Num {
    name: u64,
    value: i64,
}

impl Source for Num {
    fn key(&self) -> Key {
        Key(self.name)
    }

    fn get_key(&self) -> Key {
        self.key()
    }
}

type Db = Database<Num, u64, i64>;

const A: u64 = 1;
const B: u64 = 2;

const SUM: u64 = 100;
const LEFT: u64 = 101;
const SUM2: u64 = 102;
const D: u64 = 103;
const E: u64 = 104;
const F: u64 = 105;
const PARITY: u64 = 106;
const SHOW: u64 = 107;
const ITSELF: u64 = 108;
const PING: u64 = 109;
const PONG: u64 = 110;

struct Counts {
    sum: Cell<u32>,
    left: Cell<u32>,
    sum2: Cell<u32>,
    d: Cell<u32>,
    e: Cell<u32>,
    f: Cell<u32>,
    parity: Cell<u32>,
    show: Cell<u32>,
}

fn counts() -> Counts {
    Counts {
        sum: Cell::new(0),
        left: Cell::new(0),
        sum2: Cell::new(0),
        d: Cell::new(0),
        e: Cell::new(0),
        f: Cell::new(0),
        parity: Cell::new(0),
        show: Cell::new(0),
    }
}

fn bump(cell: &Cell<u32>) {
    cell.set(cell.get() + 1);
}

fn node(function: u64) -> DerivedNodeId {
    DerivedNodeId { key: Key(function), param_id: ParamId(0) }
}

fn read(db: &mut Db, name: u64) -> Result<i64, EngineError> {
    let id: SourceId<Num> = SourceId::from_key(Key(name));
    Ok(db.get(id)?.value)
}

fn call(counts: &Counts, db: &mut Db, function: u64) -> Result<i64, EngineError> {
    let inner = |db: &mut Db, key: Key, param: ParamId| run(counts, db, key, param);
    memo(db, node(function), &inner)?;
    Ok(db.derived_node(node(function)).unwrap().value)
}

fn run(counts: &Counts, db: &mut Db, key: Key, _param: ParamId) -> Result<i64, EngineError> {
    match key.0 {
        SUM => {
            bump(&counts.sum);
            Ok(read(db, A)? + read(db, B)?)
        }
        LEFT => {
            bump(&counts.left);
            Ok(read(db, A)? * 2)
        }
        SUM2 => {
            bump(&counts.sum2);
            Ok(call(counts, db, LEFT)? + read(db, B)?)
        }
        D => {
            bump(&counts.d);
            Ok(read(db, A)? + 1)
        }
        E => {
            bump(&counts.e);
            Ok(read(db, A)? + 1)
        }
        F => {
            bump(&counts.f);
            Ok(call(counts, db, D)? + call(counts, db, E)?)
        }
        PARITY => {
            bump(&counts.parity);
            Ok(read(db, A)? % 2)
        }
        SHOW => {
            bump(&counts.show);
            Ok(call(counts, db, PARITY)? * 10)
        }
        ITSELF => Ok(call(counts, db, ITSELF)? + 1),
        PING => Ok(call(counts, db, PONG)? + 1),
        PONG => Ok(call(counts, db, PING)? + 1),
        _ => Err(EngineError::ParamNotFound),
    }
}

fn top(counts: &Counts, db: &mut Db, function: u64) -> Result<(i64, DidRecalculate), EngineError> {
    let inner = |db: &mut Db, key: Key, param: ParamId| run(counts, db, key, param);
    let did = memo(db, node(function), &inner)?;
    Ok((db.derived_node(node(function)).unwrap().value, did))
}

fn engine() -> Db {
    let mut db = Db::new();
    assert_eq!(db.intern(0), ParamId(0));
    db
}

fn baseline(counts: &Counts) -> Db {
    let mut db = engine();
    db.set(Num { name: A, value: 1 });
    db.set(Num { name: B, value: 2 });
    assert_eq!(top(counts, &mut db, SUM), Ok((3, DidRecalculate::Recalculated)));
    assert_eq!(top(counts, &mut db, SUM), Ok((3, DidRecalculate::ReusedMemoizedValue)));
    assert_eq!(counts.sum.get(), 1);
    db
}

#[test]
fn baseline_sum_is_computed_once() {
    let counts = counts();
    let db = baseline(&counts);
    assert_eq!(db.current_epoch(), Epoch(3));
    assert_eq!(db.stack_depth(), 0);
}

#[test]
fn changed_source_invalidates() {
    let counts = counts();
    let mut db = baseline(&counts);
    db.set(Num { name: A, value: 10 });
    assert_eq!(top(&counts, &mut db, SUM), Ok((12, DidRecalculate::Recalculated)));
    assert_eq!(counts.sum.get(), 2);
}

#[test]
fn equal_value_does_not_advance_the_epoch() {
    let counts = counts();
    let mut db = baseline(&counts);
    db.set(Num { name: A, value: 10 });
    assert_eq!(top(&counts, &mut db, SUM), Ok((12, DidRecalculate::Recalculated)));
    let before = db.current_epoch();
    db.set(Num { name: A, value: 10 });
    assert_eq!(db.current_epoch(), before);
    assert_eq!(top(&counts, &mut db, SUM), Ok((12, DidRecalculate::ReusedMemoizedValue)));
    assert_eq!(counts.sum.get(), 2);
}

#[test]
fn transitive_early_cut() {
    let counts = counts();
    let mut db = engine();
    db.set(Num { name: A, value: 5 });
    db.set(Num { name: B, value: 1 });
    assert_eq!(top(&counts, &mut db, SUM2), Ok((11, DidRecalculate::Recalculated)));
    assert_eq!((counts.sum2.get(), counts.left.get()), (1, 1));
    let before = db.current_epoch();
    db.set(Num { name: A, value: 5 });
    assert_eq!(db.current_epoch(), before);
    assert_eq!(top(&counts, &mut db, SUM2), Ok((11, DidRecalculate::ReusedMemoizedValue)));
    assert_eq!((counts.sum2.get(), counts.left.get()), (1, 1));
}

#[test]
fn diamond_runs_each_side_once() {
    let counts = counts();
    let mut db = engine();
    db.set(Num { name: A, value: 0 });
    assert_eq!(top(&counts, &mut db, F), Ok((2, DidRecalculate::Recalculated)));
    assert_eq!((counts.d.get(), counts.e.get(), counts.f.get()), (1, 1, 1));
    db.set(Num { name: A, value: 1 });
    assert_eq!(top(&counts, &mut db, F), Ok((4, DidRecalculate::Recalculated)));
    assert_eq!((counts.d.get(), counts.e.get()), (2, 2));
}

#[test]
fn removed_source_is_reported() {
    let counts = counts();
    let mut db = baseline(&counts);
    let epoch = db.current_epoch();
    db.remove(SourceId::<Num>::from_key(Key(B)));
    assert_eq!(db.current_epoch(), Epoch(epoch.0 + 1));
    assert_eq!(top(&counts, &mut db, SUM), Err(EngineError::SourceNotFound));
    assert_eq!(counts.sum.get(), 1);
}

#[test]
fn unchanged_output_spares_the_dependents() {
    let counts = counts();
    let mut db = engine();
    db.set(Num { name: A, value: 1 });
    assert_eq!(top(&counts, &mut db, SHOW), Ok((10, DidRecalculate::Recalculated)));
    db.set(Num { name: A, value: 3 });
    assert_eq!(top(&counts, &mut db, SHOW), Ok((10, DidRecalculate::ReusedMemoizedValue)));
    assert_eq!((counts.parity.get(), counts.show.get()), (2, 1));
    let parity = db.derived_node(node(PARITY)).unwrap();
    assert_eq!(parity.time_updated, Epoch(2));
    assert_eq!(parity.time_verified, Epoch(3));
    db.set(Num { name: A, value: 4 });
    assert_eq!(top(&counts, &mut db, SHOW), Ok((0, DidRecalculate::Recalculated)));
    assert_eq!((counts.parity.get(), counts.show.get()), (3, 2));
}

#[test]
fn unrelated_change_reconfirms_a_chain_without_running_it() {
    let counts = counts();
    let mut db = engine();
    db.set(Num { name: A, value: 5 });
    db.set(Num { name: B, value: 1 });
    assert_eq!(top(&counts, &mut db, SUM2), Ok((11, DidRecalculate::Recalculated)));
    db.set(Num { name: 77, value: 0 });
    assert_eq!(db.current_epoch(), Epoch(4));
    assert_eq!(top(&counts, &mut db, SUM2), Ok((11, DidRecalculate::ReusedMemoizedValue)));
    assert_eq!((counts.sum2.get(), counts.left.get()), (1, 1));
    let sum2 = db.derived_node(node(SUM2)).unwrap();
    assert_eq!((sum2.time_updated, sum2.time_verified), (Epoch(3), Epoch(4)));
    let left = db.derived_node(node(LEFT)).unwrap();
    assert_eq!((left.time_updated, left.time_verified), (Epoch(2), Epoch(4)));
}

#[test]
fn a_bounded_call_stops_where_it_may_not_look_deeper() {
    let counts = counts();
    let mut db = engine();
    db.set(Num { name: A, value: 5 });
    db.set(Num { name: B, value: 1 });
    assert_eq!(top(&counts, &mut db, SUM2), Ok((11, DidRecalculate::Recalculated)));
    db.set(Num { name: 77, value: 0 });
    let inner = |db: &mut Db, key: Key, param: ParamId| run(&counts, db, key, param);
    assert_eq!(memo_within(&mut db, node(SUM2), &inner, 0), Err(EngineError::TooDeep));
    assert_eq!((counts.sum2.get(), counts.left.get()), (1, 1));
    assert_eq!(db.derived_node(node(SUM2)).unwrap().time_verified, Epoch(3));
    assert_eq!(
        memo_within(&mut db, node(SUM2), &inner, 1),
        Ok(DidRecalculate::ReusedMemoizedValue)
    );
    assert_eq!(db.derived_node(node(SUM2)).unwrap().time_verified, Epoch(4));
    assert_eq!((counts.sum2.get(), counts.left.get()), (1, 1));
}

#[test]
fn no_node_is_verified_before_it_was_updated() {
    let counts = counts();
    let mut db = engine();
    db.set(Num { name: A, value: 1 });
    db.set(Num { name: B, value: 2 });
    let functions = [SUM, SUM2, F, SHOW];
    for round in 0..6 {
        for function in functions {
            assert!(top(&counts, &mut db, function).is_ok());
        }
        for function in [SUM, LEFT, SUM2, D, E, F, PARITY, SHOW] {
            let stored = db.derived_node(node(function)).unwrap();
            assert!(stored.time_verified.0 >= stored.time_updated.0);
            assert!(stored.time_verified.0 <= db.current_epoch().0);
            assert!(stored.time_updated.0 >= 1);
        }
        db.set(Num { name: if round % 2 == 0 { A } else { B }, value: round / 2 });
    }
}

#[test]
fn a_function_that_calls_itself_is_stopped() {
    let counts = counts();
    let mut db = engine();
    assert_eq!(top(&counts, &mut db, ITSELF), Err(EngineError::Cycle));
    assert!(!db.contains_derived(node(ITSELF)));
    assert_eq!(db.stack_depth(), 0);
    assert!(!db.is_running(node(ITSELF)));
    assert_eq!(top(&counts, &mut db, PING), Err(EngineError::Cycle));
    assert!(!db.contains_derived(node(PING)));
    assert!(!db.contains_derived(node(PONG)));
    assert_eq!(db.stack_depth(), 0);
}

#[test]
fn a_function_is_running_while_it_runs() {
    let mut db = engine();
    let watched = |db: &mut Db, key: Key, param: ParamId| -> Result<i64, EngineError> {
        assert!(db.is_running(DerivedNodeId { key, param_id: param }));
        assert!(db.is_busy(DerivedNodeId { key, param_id: param }));
        assert!(!db.is_running(node(SUM)));
        assert!(!db.is_busy(node(SUM)));
        Ok(7)
    };
    assert_eq!(memo(&mut db, node(D), &watched), Ok(DidRecalculate::Recalculated));
    assert!(!db.is_running(node(D)));
    assert!(!db.is_busy(node(D)));
}

#[test]
fn a_call_is_under_way_while_it_asks_its_dependencies() {
    let counts = counts();
    let mut db = engine();
    db.set(Num { name: A, value: 5 });
    db.set(Num { name: B, value: 1 });
    assert_eq!(top(&counts, &mut db, SUM2), Ok((11, DidRecalculate::Recalculated)));
    db.set(Num { name: A, value: 6 });
    let seen = Cell::new(false);
    let inner = |db: &mut Db, key: Key, param: ParamId| {
        if key == Key(LEFT) {
            seen.set(db.is_busy(node(SUM2)) && !db.is_running(node(SUM2)));
        }
        run(&counts, db, key, param)
    };
    assert_eq!(memo(&mut db, node(SUM2), &inner), Ok(DidRecalculate::Recalculated));
    assert!(seen.get());
    assert!(!db.is_busy(node(SUM2)));
    assert_eq!(db.derived_node(node(SUM2)).unwrap().value, 13);
}
