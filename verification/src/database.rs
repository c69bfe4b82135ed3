use crate::epoch::Epoch;
use crate::error::EngineError;
use crate::key::{Key, ParamId};
use crate::node::{Dependency, DerivedNode, DerivedNodeId, NodeKind};
use crate::source::{Source, SourceId, SourceNode};
use crate::state::{entry_wf, node_wf, FrameEntry, State};
use std::collections::HashMap;
use vstd::prelude::*;
use vstd::std_specs::cmp::PartialEqSpec;
use vstd::std_specs::hash::*;

verus! {

broadcast use vstd::std_specs::hash::group_hash_axioms;

/// The engine: the epoch clock, the source table, the parameter interner, the
/// derived-node store and the dependency stack, owned as one aggregate.
///
/// `S` is the type of the sources, `P` of the parameter tuples, `R` of the
/// values that memoized functions return.
pub struct Database<S, P, R> {
    epoch: Epoch,
    sources: HashMap<u64, SourceNode<S>>,
    params: Vec<P>,
    derived: HashMap<u128, DerivedNode<R>>,
    stack: Vec<Vec<FrameEntry>>,
    running: Vec<DerivedNodeId>,
    verifying: Vec<DerivedNodeId>,
    executions: Ghost<nat>,
}

/// The slot of the derived-node store in which a node is kept.
pub closed spec fn slot(id: DerivedNodeId) -> u128 {
    (id.key.0 * 0x1_0000_0000_0000_0000 + id.param_id.0) as u128
}

fn slot_of(id: DerivedNodeId) -> (s: u128)
    ensures
        s == slot(id),
{
    let high: u128 = id.key.0 as u128;
    let low: u128 = id.param_id.0 as u128;
    high * 0x1_0000_0000_0000_0000 + low
}

proof fn lemma_slot_injective(a: DerivedNodeId, b: DerivedNodeId)
    ensures
        slot(a) == slot(b) <==> a == b,
{
}

impl<S, P, R> View for Database<S, P, R> {
    type V = State<S, P, R>;

    closed spec fn view(&self) -> State<S, P, R> {
        State {
            epoch: self.epoch,
            sources: Map::new(
                |k: Key| self.sources@.contains_key(k.0),
                |k: Key| self.sources@[k.0],
            ),
            params: self.params@,
            derived: Map::new(
                |id: DerivedNodeId| self.derived@.contains_key(slot(id)),
                |id: DerivedNodeId| self.derived@[slot(id)],
            ),
            stack: Seq::new(self.stack@.len(), |i: int| self.stack@[i]@),
            running: self.running@,
            verifying: self.verifying@,
            executions: self.executions@,
        }
    }
}

impl<S, P, R> Database<S, P, R> {
    /// An engine at the first epoch, with nothing stored.
    pub fn new() -> (db: Self)
        ensures
            db@ == State::<S, P, R>::initial(),
            db@.wf(),
    {
        let db = Database {
            epoch: Epoch::new(),
            sources: HashMap::new(),
            params: Vec::new(),
            derived: HashMap::new(),
            stack: Vec::new(),
            running: Vec::new(),
            verifying: Vec::new(),
            executions: Ghost(0),
        };
        proof {
            assert(db@.sources =~= Map::empty());
            assert(db@.derived =~= Map::empty());
            assert(db@.stack =~= Seq::empty());
        }
        db
    }

    /// The current epoch. Reading it does not advance it.
    pub fn current_epoch(&self) -> (e: Epoch)
        ensures
            e == self@.epoch,
    {
        self.epoch
    }

    /// Whether a source is stored under `key`.
    pub fn contains_source(&self, key: Key) -> (b: bool)
        ensures
            b == self@.sources.contains_key(key),
    {
        self.sources.contains_key(&key.0)
    }

    /// The source stored under `key`, if there is one. This is a plain lookup:
    /// it records no dependency.
    pub fn source_node(&self, key: Key) -> (node: Option<&SourceNode<S>>)
        ensures
            node == (if self@.sources.contains_key(key) {
                Some(&self@.sources[key])
            } else {
                None
            }),
    {
        self.sources.get(&key.0)
    }

    /// Stores `value` under `key`. A new key, or a value that differs from the
    /// stored one, advances the epoch and is installed at the new epoch; a
    /// value equal to the stored one changes nothing.
    pub fn set_at(&mut self, key: Key, value: S) -> (id: SourceId<S>) where S: PartialEq
        requires
            old(self)@.wf(),
            old(self)@.epoch.0 < u64::MAX,
        ensures
            id.key == key,
            final(self)@.wf(),
            S::obeys_eq_spec() ==> final(self)@ == old(self)@.after_set(key, value),
            final(self)@ == old(self)@ || final(self)@ == (State {
                epoch: Epoch((old(self)@.epoch.0 + 1) as u64),
                sources: old(self)@.sources.insert(
                    key,
                    SourceNode { time_updated: Epoch((old(self)@.epoch.0 + 1) as u64), value },
                ),
                ..old(self)@
            }),
            !old(self)@.sources.contains_key(key) ==> final(self)@ != old(self)@,
    {
        let unchanged = match self.sources.get(&key.0) {
            Some(node) => node.value == value,
            None => false,
        };
        if !unchanged {
            let now = self.epoch.increment();
            self.sources.insert(key.0, SourceNode { time_updated: now, value });
            proof {
                let after = State {
                    epoch: now,
                    sources: old(self)@.sources.insert(key, SourceNode { time_updated: now, value }),
                    ..old(self)@
                };
                assert(self@.sources =~= after.sources);
                assert(self@.derived =~= after.derived);
                assert(self@.stack =~= after.stack);
                assert(self@ == after);
            }
        }
        SourceId::from_key(key)
    }

    /// Stores `source` under its own key: see `set_at`.
    pub fn set(&mut self, source: S) -> (id: SourceId<S>) where S: Source + PartialEq
        requires
            old(self)@.wf(),
            old(self)@.epoch.0 < u64::MAX,
        ensures
            id.key == source.key(),
            final(self)@.wf(),
            S::obeys_eq_spec() ==> final(self)@ == old(self)@.after_set(id.key, source),
            final(self)@ == old(self)@ || final(self)@ == (State {
                epoch: Epoch((old(self)@.epoch.0 + 1) as u64),
                sources: old(self)@.sources.insert(
                    id.key,
                    SourceNode { time_updated: Epoch((old(self)@.epoch.0 + 1) as u64), value: source },
                ),
                ..old(self)@
            }),
            !old(self)@.sources.contains_key(id.key) ==> final(self)@ != old(self)@,
    {
        let key = source.get_key();
        self.set_at(key, source)
    }

    /// Removes the source that `id` names and advances the epoch. Later reads
    /// of it fail.
    pub fn remove(&mut self, id: SourceId<S>)
        requires
            old(self)@.wf(),
            old(self)@.epoch.0 < u64::MAX,
        ensures
            final(self)@.wf(),
            final(self)@ == old(self)@.after_remove(id.key),
    {
        self.epoch.increment();
        self.sources.remove(&id.key.0);
        proof {
            let after = old(self)@.after_remove(id.key);
            assert(self@.sources =~= after.sources);
            assert(self@.derived =~= after.derived);
            assert(self@.stack =~= after.stack);
        }
    }

    /// How many frames the dependency stack holds: how many user functions
    /// are running, one inside the other.
    pub fn stack_depth(&self) -> (n: usize)
        ensures
            n == self@.stack.len(),
    {
        self.stack.len()
    }

    /// Appends `entry` to the top frame of the dependency stack. Where no user
    /// function is running there is no frame, and nothing is recorded.
    pub fn register(&mut self, entry: FrameEntry)
        requires
            old(self)@.wf(),
            entry_wf(entry, old(self)@.epoch),
            entry.1.time_verified_or_updated == old(self)@.epoch,
        ensures
            final(self)@.wf(),
            final(self)@ == old(self)@.registered(entry),
            final(self)@.follows(old(self)@),
    {
        let n = self.stack.len();
        if n > 0 {
            let mut frame = self.stack.pop().unwrap();
            frame.push(entry);
            self.stack.push(frame);
        }
        proof {
            let after = old(self)@.registered(entry);
            assert(self@.sources =~= after.sources);
            assert(self@.derived =~= after.derived);
            assert(self@.stack =~= after.stack);
            assert(self@ == after);
            lemma_registered_follows(old(self)@, entry);
        }
    }

    /// Reads the source that `id` names and records the read in the frame of
    /// the running user function, if there is one.
    pub fn get(&mut self, id: SourceId<S>) -> (r: Result<&S, EngineError>)
        requires
            old(self)@.wf(),
        ensures
            final(self)@.wf(),
            final(self)@ == old(self)@.after_get(id.key),
            final(self)@.follows(old(self)@),
            r == (if old(self)@.sources.contains_key(id.key) {
                Ok::<&S, EngineError>(&old(self)@.sources[id.key].value)
            } else {
                Err(EngineError::SourceNotFound)
            }),
    {
        let time_updated = match self.sources.get(&id.key.0) {
            Some(node) => node.time_updated,
            None => {
                proof {
                    self@.lemma_follows_reflexive();
                }
                return Err(EngineError::SourceNotFound);
            },
        };
        let now = self.epoch;
        assert(self@.sources.contains_key(id.key));
        self.register(
            (
                time_updated,
                Dependency { node_to: NodeKind::Source(id.key), time_verified_or_updated: now },
            ),
        );
        match self.sources.get(&id.key.0) {
            Some(node) => Ok(&node.value),
            None => Err(EngineError::SourceNotFound),
        }
    }
}

impl<S, P, R> Database<S, P, R> {
    /// Interns a parameter tuple: the handle of the first stored tuple equal
    /// to `param`, or, if there is none, of `param` itself, which is stored.
    pub fn intern(&mut self, param: P) -> (id: ParamId) where P: PartialEq
        requires
            old(self)@.wf(),
        ensures
            final(self)@.wf(),
            final(self)@.follows(old(self)@),
            final(self)@.interned(id),
            final(self)@ == old(self)@ || final(self)@ == (State {
                params: old(self)@.params.push(param),
                ..old(self)@
            }),
            P::obeys_eq_spec() ==> final(self)@ == old(self)@.after_intern(param) && id.0
                == old(self)@.position_of(param),
    {
        let n = self.params.len();
        let mut i: usize = 0;
        while i < n
            invariant
                i <= n,
                n == self.params@.len(),
                *self == *old(self),
                self@.wf(),
                P::obeys_eq_spec() ==> crate::state::first_equal(self.params@, param, 0)
                    == crate::state::first_equal(self.params@, param, i as int),
            decreases n - i,
        {
            if self.params[i] == param {
                proof {
                    self@.lemma_follows_reflexive();
                }
                return ParamId(i as u64);
            }
            i = i + 1;
        }
        self.params.push(param);
        proof {
            let after = State { params: old(self)@.params.push(param), ..old(self)@ };
            assert(self@.sources =~= after.sources);
            assert(self@.derived =~= after.derived);
            assert(self@.stack =~= after.stack);
            assert(self@ == after);
            assert(after.keeps_fresh_of(old(self)@));
            after.lemma_follows_from_keeps(old(self)@);
        }
        ParamId(n as u64)
    }

    /// Whether `id` is the handle of an interned tuple.
    pub fn is_interned(&self, id: ParamId) -> (b: bool)
        ensures
            b == self@.interned(id),
    {
        id.0 < self.params.len() as u64
    }

    /// Whether `id` is the handle of an interned tuple, as a result: a handle
    /// that no `intern` has returned is a missing parameter.
    pub fn check_interned(&self, id: ParamId) -> (r: Result<(), EngineError>)
        ensures
            r == (if self@.interned(id) {
                Ok::<(), EngineError>(())
            } else {
                Err(EngineError::ParamNotFound)
            }),
    {
        if self.is_interned(id) {
            Ok(())
        } else {
            Err(EngineError::ParamNotFound)
        }
    }

    /// The interned tuple that `id` names. A handle that no `intern` has
    /// returned is reported as a missing source.
    pub fn param(&self, id: ParamId) -> (r: Result<&P, EngineError>)
        ensures
            r == (if self@.interned(id) {
                Ok::<&P, EngineError>(&self@.params[id.0 as int])
            } else {
                Err(EngineError::SourceNotFound)
            }),
    {
        if id.0 < self.params.len() as u64 {
            Ok(&self.params[id.0 as usize])
        } else {
            Err(EngineError::SourceNotFound)
        }
    }

    /// Whether a derived node is stored under `id`.
    pub fn contains_derived(&self, id: DerivedNodeId) -> (b: bool)
        ensures
            b == self@.derived.contains_key(id),
    {
        let s = slot_of(id);
        self.derived.contains_key(&s)
    }

    /// The derived node stored under `id`, if there is one: the last value
    /// that the memoized call returned, with its times and dependencies.
    pub fn derived_node(&self, id: DerivedNodeId) -> (node: Option<&DerivedNode<R>>)
        ensures
            node == (if self@.derived.contains_key(id) {
                Some(&self@.derived[id])
            } else {
                None
            }),
    {
        let s = slot_of(id);
        self.derived.get(&s)
    }

    /// Stores `node` under `id`, in place of what was there.
    pub(crate) fn put_derived(&mut self, id: DerivedNodeId, node: DerivedNode<R>)
        requires
            old(self)@.wf(),
            node_wf(node, old(self)@.epoch),
        ensures
            final(self)@.wf(),
            final(self)@ == (State { derived: old(self)@.derived.insert(id, node), ..old(self)@ }),
    {
        let s = slot_of(id);
        self.derived.insert(s, node);
        proof {
            let after = State { derived: old(self)@.derived.insert(id, node), ..old(self)@ };
            assert forall|other: DerivedNodeId| #[trigger]
                self@.derived.contains_key(other) == after.derived.contains_key(other) && (
                after.derived.contains_key(other) ==> self@.derived[other]
                    == after.derived[other]) by {
                lemma_slot_injective(id, other);
            }
            assert(self@.derived =~= after.derived);
            assert(self@.sources =~= after.sources);
            assert(self@.stack =~= after.stack);
            assert(self@ == after);
        }
    }

    /// Takes the node stored under `id` out of the store.
    pub(crate) fn take_derived(&mut self, id: DerivedNodeId) -> (node: Option<DerivedNode<R>>)
        requires
            old(self)@.wf(),
        ensures
            final(self)@.wf(),
            final(self)@ == (State { derived: old(self)@.derived.remove(id), ..old(self)@ }),
            node == (if old(self)@.derived.contains_key(id) {
                Some(old(self)@.derived[id])
            } else {
                None
            }),
    {
        let s = slot_of(id);
        let node = self.derived.remove(&s);
        proof {
            let after = State { derived: old(self)@.derived.remove(id), ..old(self)@ };
            assert forall|other: DerivedNodeId| #[trigger]
                self@.derived.contains_key(other) == after.derived.contains_key(other) && (
                after.derived.contains_key(other) ==> self@.derived[other]
                    == after.derived[other]) by {
                lemma_slot_injective(id, other);
            }
            assert(self@.derived =~= after.derived);
            assert(self@.sources =~= after.sources);
            assert(self@.stack =~= after.stack);
            assert(self@ == after);
        }
        node
    }

    /// Records that the node under `id` was confirmed at the current epoch.
    pub(crate) fn mark_verified(&mut self, id: DerivedNodeId)
        requires
            old(self)@.wf(),
            old(self)@.derived.contains_key(id),
        ensures
            final(self)@.wf(),
            final(self)@ == (State {
                derived: old(self)@.derived.insert(
                    id,
                    DerivedNode { time_verified: old(self)@.epoch, ..old(self)@.derived[id] },
                ),
                ..old(self)@
            }),
    {
        let now = self.epoch;
        match self.take_derived(id) {
            Some(mut node) => {
                node.time_verified = now;
                self.put_derived(id, node);
            },
            None => {},
        }
        proof {
            let after = State {
                derived: old(self)@.derived.insert(
                    id,
                    DerivedNode { time_verified: old(self)@.epoch, ..old(self)@.derived[id] },
                ),
                ..old(self)@
            };
            assert(self@.derived =~= after.derived);
        }
    }

    /// Whether the user function of the memoized call `id` is running.
    pub fn is_running(&self, id: DerivedNodeId) -> (b: bool)
        ensures
            b == self@.running.contains(id),
    {
        let n = self.running.len();
        let mut i: usize = 0;
        while i < n
            invariant
                i <= n,
                n == self.running@.len(),
                forall|j: int| 0 <= j < i ==> self.running@[j] != id,
            decreases n - i,
        {
            if self.running[i] == id {
                return true;
            }
            i = i + 1;
        }
        false
    }

    /// Whether the memoized call `id` is under way: its user function is
    /// running, or it is asking its stored dependencies.
    pub fn is_busy(&self, id: DerivedNodeId) -> (b: bool)
        ensures
            b == self@.busy(id),
    {
        if self.is_running(id) {
            return true;
        }
        let n = self.verifying.len();
        let mut i: usize = 0;
        while i < n
            invariant
                i <= n,
                n == self.verifying@.len(),
                forall|j: int| 0 <= j < i ==> self.verifying@[j] != id,
            decreases n - i,
        {
            if self.verifying[i] == id {
                return true;
            }
            i = i + 1;
        }
        false
    }

    /// Marks the memoized call `id` as asking its stored dependencies.
    pub(crate) fn mark_verifying(&mut self, id: DerivedNodeId)
        requires
            old(self)@.wf(),
        ensures
            final(self)@.wf(),
            final(self)@ == old(self)@.marked(id),
    {
        self.verifying.push(id);
        proof {
            let after = old(self)@.marked(id);
            assert(self@.sources =~= after.sources);
            assert(self@.derived =~= after.derived);
            assert(self@.stack =~= after.stack);
            assert(self@ == after);
        }
    }

    /// Takes the mark of the innermost asking off again.
    pub(crate) fn unmark_verifying(&mut self)
        requires
            old(self)@.wf(),
        ensures
            final(self)@.wf(),
            final(self)@ == old(self)@.unmarked(),
    {
        self.verifying.pop();
        proof {
            let after = old(self)@.unmarked();
            assert(self@.sources =~= after.sources);
            assert(self@.derived =~= after.derived);
            assert(self@.stack =~= after.stack);
            assert(self@.running =~= after.running);
            assert(self@.verifying =~= after.verifying);
            assert(self@ == after);
        }
    }

    /// Opens an empty frame on top of the dependency stack, for the user
    /// function of the memoized call `owner`.
    pub(crate) fn push_frame(&mut self, owner: DerivedNodeId)
        requires
            old(self)@.wf(),
        ensures
            final(self)@.wf(),
            final(self)@ == (State {
                stack: old(self)@.stack.push(Seq::empty()),
                running: old(self)@.running.push(owner),
                ..old(self)@
            }),
    {
        self.stack.push(Vec::new());
        self.running.push(owner);
        proof {
            let after = State {
                stack: old(self)@.stack.push(Seq::empty()),
                running: old(self)@.running.push(owner),
                ..old(self)@
            };
            assert(self@.sources =~= after.sources);
            assert(self@.derived =~= after.derived);
            assert(self@.stack =~= after.stack);
            assert(self@ == after);
        }
    }

    /// Closes the top frame of the dependency stack and hands it out.
    pub(crate) fn pop_frame(&mut self) -> (frame: Option<Vec<FrameEntry>>)
        requires
            old(self)@.wf(),
        ensures
            final(self)@.wf(),
            match frame {
                Some(entries) => {
                    &&& old(self)@.stack.len() > 0
                    &&& entries@ == old(self)@.stack.last()
                    &&& final(self)@ == (State {
                        stack: old(self)@.stack.drop_last(),
                        running: old(self)@.running.drop_last(),
                        ..old(self)@
                    })
                },
                None => old(self)@.stack.len() == 0 && final(self)@ == old(self)@,
            },
    {
        let frame = self.stack.pop();
        self.running.pop();
        proof {
            if old(self)@.stack.len() > 0 {
                let after = State {
                    stack: old(self)@.stack.drop_last(),
                    running: old(self)@.running.drop_last(),
                    ..old(self)@
                };
                assert(self@.sources =~= after.sources);
                assert(self@.derived =~= after.derived);
                assert(self@.stack =~= after.stack);
                assert(self@.running =~= after.running);
                assert(self@ == after);
                assert(frame.unwrap()@ == old(self)@.stack[old(self)@.stack.len() - 1]);
            } else {
                assert(self@.sources =~= old(self)@.sources);
                assert(self@.derived =~= old(self)@.derived);
                assert(self@.stack =~= old(self)@.stack);
                assert(self@.running =~= old(self)@.running);
            }
        }
        frame
    }

    /// Counts one run of a user function.
    pub(crate) fn note_execution(&mut self)
        ensures
            final(self)@ == (State { executions: old(self)@.executions + 1, ..old(self)@ }),
    {
        proof {
            self.executions@ = self.executions@ + 1;
        }
        proof {
            let after = State { executions: old(self)@.executions + 1, ..old(self)@ };
            assert(self@.sources =~= after.sources);
            assert(self@.derived =~= after.derived);
            assert(self@.stack =~= after.stack);
        }
    }
}

/// Recording an entry is something a user function may do.
proof fn lemma_registered_follows<S, P, R>(pre: State<S, P, R>, entry: FrameEntry)
    requires
        entry.1.time_verified_or_updated == pre.epoch,
    ensures
        pre.registered(entry).follows(pre),
{
    let post = pre.registered(entry);
    assert(post.keeps_fresh_of(pre));
    post.lemma_follows_from_keeps(pre);
}

} // verus!
