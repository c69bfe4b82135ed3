use crate::epoch::Epoch;
use crate::key::Key;
use crate::node::{Dependency, DerivedNode, DerivedNodeId, NodeKind};
use crate::source::SourceNode;
use vstd::prelude::*;
use vstd::std_specs::cmp::PartialEqSpec;

verus! {

/// One entry of a dependency frame: the time at which the callee's value last
/// changed, and the edge to the callee.
pub type FrameEntry = (Epoch, Dependency);

/// The mathematical model of an engine: what its contracts speak of.
pub struct State<S, P, R> {
    /// The current epoch.
    pub epoch: Epoch,
    /// The source table.
    pub sources: Map<Key, SourceNode<S>>,
    /// The interned parameter tuples; a `ParamId` is an index into them.
    pub params: Seq<P>,
    /// The derived-node store.
    pub derived: Map<DerivedNodeId, DerivedNode<R>>,
    /// The dependency stack, the frame of the running user function last.
    pub stack: Seq<Seq<FrameEntry>>,
    /// The memoized calls whose user functions are running, one for each
    /// frame of the dependency stack.
    pub running: Seq<DerivedNodeId>,
    /// The memoized calls that are asking their stored dependencies, the
    /// innermost last.
    pub verifying: Seq<DerivedNodeId>,
    /// How many times the engine has run a user function.
    pub executions: nat,
}

/// What the stored dependencies of a node say of it, as far as they can be
/// asked without a memoized call.
pub enum Verdict {
    /// No dependency has changed.
    Unchanged,
    /// The first dependency that could have changed has.
    Changed,
    /// The first dependency that could have changed is a source that is gone.
    Missing,
    /// The first dependency that could have changed is a derived node that
    /// has to be brought up to date by a memoized call before it can answer.
    Asks,
}

/// A frame entry is sound at `now`: its three times are in order.
pub open spec fn entry_wf(entry: FrameEntry, now: Epoch) -> bool {
    1 <= entry.0.0 <= entry.1.time_verified_or_updated.0 <= now.0
}

/// A derived node is sound at `now`: it was not verified before its value last
/// changed, nor after `now`, and no dependency was recorded after the node was
/// last verified.
pub open spec fn node_wf<R>(node: DerivedNode<R>, now: Epoch) -> bool {
    &&& 1 <= node.time_updated.0 <= node.time_verified.0 <= now.0
    &&& forall|j: int|
        0 <= j < node.dependencies@.len() ==> (
        #[trigger] node.dependencies@[j]).time_verified_or_updated.0 <= node.time_verified.0
}

/// Two derived nodes that differ at most in when they were last verified.
pub open spec fn same_content<R>(a: DerivedNode<R>, b: DerivedNode<R>) -> bool {
    &&& a.value == b.value
    &&& a.time_updated == b.time_updated
    &&& a.dependencies@ == b.dependencies@
    &&& a.inner_fn == b.inner_fn
}

/// Every dependency of `node` was recorded at `now`.
pub open spec fn recorded_at<R>(node: DerivedNode<R>, now: Epoch) -> bool {
    forall|j: int|
        0 <= j < node.dependencies@.len() ==> (#[trigger] node.dependencies@[j]).time_verified_or_updated
            == now
}

/// `short` is the beginning of `long`.
pub open spec fn is_prefix<T>(short: Seq<T>, long: Seq<T>) -> bool {
    &&& short.len() <= long.len()
    &&& forall|i: int| 0 <= i < short.len() ==> #[trigger] long[i] == short[i]
}

/// The least index from `from` on at which `items` holds a tuple equal to
/// `wanted`, or the length of `items` if there is none.
pub open spec fn first_equal<P: PartialEq>(items: Seq<P>, wanted: P, from: int) -> int
    decreases items.len() - from,
{
    if from < 0 || from >= items.len() {
        items.len() as int
    } else if items[from].eq_spec(&wanted) {
        from
    } else {
        first_equal(items, wanted, from + 1)
    }
}

impl<S, P, R> State<S, P, R> {
    /// The state of an engine that has done nothing yet.
    pub open spec fn initial() -> Self {
        State {
            epoch: Epoch::initial(),
            sources: Map::empty(),
            params: Seq::empty(),
            derived: Map::empty(),
            stack: Seq::empty(),
            running: Seq::empty(),
            verifying: Seq::empty(),
            executions: 0,
        }
    }

    /// The invariant of every engine.
    pub open spec fn wf(self) -> bool {
        &&& self.epoch.0 >= 1
        &&& self.running.len() == self.stack.len()
        &&& forall|k: Key| #[trigger]
            self.sources.contains_key(k) ==> 1 <= self.sources[k].time_updated.0 <= self.epoch.0
        &&& forall|id: DerivedNodeId| #[trigger]
            self.derived.contains_key(id) ==> node_wf(self.derived[id], self.epoch)
        &&& forall|i: int, j: int|
            0 <= i < self.stack.len() && 0 <= j < self.stack[i].len() ==> entry_wf(
                #[trigger] self.stack[i][j],
                self.epoch,
            )
    }

    /// The parameter handle `id` has been returned by an `intern`.
    pub open spec fn interned(self, id: crate::key::ParamId) -> bool {
        id.0 < self.params.len()
    }

    /// The dependency `dep` has not changed since it was recorded, as far as
    /// `depth` levels of derived nodes below it show.
    pub open spec fn dependency_unchanged(self, dep: Dependency, depth: nat) -> bool
        decreases depth, 0nat,
    {
        match dep.node_to {
            NodeKind::Source(key) => {
                &&& self.sources.contains_key(key)
                &&& self.sources[key].time_updated.0 <= dep.time_verified_or_updated.0
            },
            NodeKind::Derived(id) => {
                &&& depth > 0
                &&& self.interned(id.param_id)
                &&& self.derived.contains_key(id)
                &&& self.derived[id].time_updated.0 <= dep.time_verified_or_updated.0
                &&& self.fresh(id, (depth - 1) as nat)
            },
        }
    }

    /// The derived node `id` is stored and up to date: each of its
    /// dependencies was recorded at the current epoch or has not changed
    /// since it was recorded, `depth` levels down.
    pub open spec fn fresh(self, id: DerivedNodeId, depth: nat) -> bool
        decreases depth, 2nat,
    {
        &&& self.derived.contains_key(id)
        &&& forall|j: int|
            0 <= j < self.derived[id].dependencies@.len() ==> self.dependency_settled(
                #[trigger] self.derived[id].dependencies@[j],
                depth,
            )
    }

    /// Whether a dependency on the derived node `id`, recorded at `since`,
    /// has changed for all to see, without a memoized call: its parameters
    /// are not interned, or it is stored with a value that changed after
    /// `since`.
    pub open spec fn plainly_changed(self, id: DerivedNodeId, since: Epoch) -> bool {
        ||| !self.interned(id.param_id)
        ||| self.derived.contains_key(id) && self.derived[id].time_updated.0 > since.0
    }

    /// What `dependencies` say from the place `from` on, asked in their
    /// order: those recorded at the current epoch are passed over, a source
    /// answers by the time of its last update, and the first derived node
    /// that has not plainly changed ends the asking.
    pub open spec fn verdict(self, dependencies: Seq<Dependency>, from: int) -> Verdict
        decreases dependencies.len() - from,
    {
        if from < 0 || from >= dependencies.len() {
            Verdict::Unchanged
        } else {
            let dep = dependencies[from];
            if dep.time_verified_or_updated == self.epoch {
                self.verdict(dependencies, from + 1)
            } else {
                match dep.node_to {
                    NodeKind::Source(key) => if !self.sources.contains_key(key) {
                        Verdict::Missing
                    } else if self.sources[key].time_updated.0 > dep.time_verified_or_updated.0 {
                        Verdict::Changed
                    } else {
                        self.verdict(dependencies, from + 1)
                    },
                    NodeKind::Derived(id) => if self.plainly_changed(
                        id,
                        dep.time_verified_or_updated,
                    ) {
                        Verdict::Changed
                    } else {
                        Verdict::Asks
                    },
                }
            }
        }
    }

    /// Whether a memoized call of `id` has to run the user function without
    /// asking any other memoized call first: no node is stored, or the first
    /// stored dependency that could have changed has.
    pub open spec fn must_run(self, id: DerivedNodeId) -> bool {
        !self.derived.contains_key(id) || self.verdict_of(id) is Changed
    }

    /// The place at which the asking of `dependencies` from the place `from`
    /// on stops: that of the first dependency that is not passed over, or
    /// their number where all are.
    pub open spec fn stops_at(self, dependencies: Seq<Dependency>, from: int) -> int
        decreases dependencies.len() - from,
    {
        if from < 0 || from >= dependencies.len() {
            dependencies.len() as int
        } else {
            let dep = dependencies[from];
            let passed = dep.time_verified_or_updated == self.epoch || (match dep.node_to {
                NodeKind::Source(key) => self.sources.contains_key(key)
                    && self.sources[key].time_updated.0 <= dep.time_verified_or_updated.0,
                NodeKind::Derived(_) => false,
            });
            if passed {
                self.stops_at(dependencies, from + 1)
            } else {
                from
            }
        }
    }

    /// What the stored dependencies of the node under `id` say of it.
    pub open spec fn verdict_of(self, id: DerivedNodeId) -> Verdict {
        self.verdict(self.derived[id].dependencies@, 0)
    }

    /// The state in which the node under `id` was confirmed at the current
    /// epoch and the call of it recorded in the frame of its caller.
    pub open spec fn confirmed(self, id: DerivedNodeId) -> Self {
        (State {
            derived: self.derived.insert(
                id,
                DerivedNode { time_verified: self.epoch, ..self.derived[id] },
            ),
            ..self
        }).registered(self.derived_entry(id))
    }

    /// The state in which `node` was installed under `id` and the call of it
    /// recorded in the frame of its caller.
    pub open spec fn installed(self, id: DerivedNodeId, node: DerivedNode<R>) -> Self {
        (State { derived: self.derived.insert(id, node), ..self }).registered(
            (
                node.time_updated,
                Dependency { node_to: NodeKind::Derived(id), time_verified_or_updated: self.epoch },
            ),
        )
    }

    /// The dependency `dep` needs no second look: it was recorded at the
    /// current epoch, or it has not changed since.
    pub open spec fn dependency_settled(self, dep: Dependency, depth: nat) -> bool
        decreases depth, 1nat,
    {
        dep.time_verified_or_updated == self.epoch || self.dependency_unchanged(dep, depth)
    }

    /// The state in which the user function of the memoized call `owner`
    /// starts: a frame is opened for it and its run is counted.
    pub open spec fn opened(self, owner: DerivedNodeId) -> Self {
        State {
            stack: self.stack.push(Seq::empty()),
            running: self.running.push(owner),
            executions: self.executions + 1,
            ..self
        }
    }

    /// The state in which the memoized call `id` has begun to ask its stored
    /// dependencies.
    pub open spec fn marked(self, id: DerivedNodeId) -> Self {
        State { verifying: self.verifying.push(id), ..self }
    }

    /// The state in which the innermost asking has ended.
    pub open spec fn unmarked(self) -> Self {
        if self.verifying.len() == 0 {
            self
        } else {
            State { verifying: self.verifying.drop_last(), ..self }
        }
    }

    /// Whether the memoized call `id` is under way: its user function is
    /// running, or it is asking its stored dependencies.
    pub open spec fn busy(self, id: DerivedNodeId) -> bool {
        self.running.contains(id) || self.verifying.contains(id)
    }

    /// The state after the top frame was closed.
    pub open spec fn closed(self) -> Self {
        State { stack: self.stack.drop_last(), running: self.running.drop_last(), ..self }
    }

    /// The state with `entry` appended to the top frame of the dependency
    /// stack; the state itself where no user function is running.
    pub open spec fn registered(self, entry: FrameEntry) -> Self {
        if self.stack.len() == 0 {
            self
        } else {
            State {
                stack: self.stack.update(self.stack.len() - 1, self.stack.last().push(entry)),
                ..self
            }
        }
    }

    /// The entry that a read of the source under `key` records.
    pub open spec fn source_entry(self, key: Key) -> FrameEntry {
        (
            self.sources[key].time_updated,
            Dependency { node_to: NodeKind::Source(key), time_verified_or_updated: self.epoch },
        )
    }

    /// The entry that a memoized call of `id` records once it is done.
    pub open spec fn derived_entry(self, id: DerivedNodeId) -> FrameEntry {
        (
            self.derived[id].time_updated,
            Dependency { node_to: NodeKind::Derived(id), time_verified_or_updated: self.epoch },
        )
    }

    /// Whether storing `value` under `key` leaves the source table as it is:
    /// a source is there, and its value equals `value`.
    pub open spec fn set_is_noop(self, key: Key, value: S) -> bool where S: PartialEq {
        self.sources.contains_key(key) && self.sources[key].value.eq_spec(&value)
    }

    /// The state after `value` was stored under `key`.
    pub open spec fn after_set(self, key: Key, value: S) -> Self where S: PartialEq {
        if self.set_is_noop(key, value) {
            self
        } else {
            let now = Epoch((self.epoch.0 + 1) as u64);
            State {
                epoch: now,
                sources: self.sources.insert(key, SourceNode { time_updated: now, value }),
                ..self
            }
        }
    }

    /// The state after the source under `key` was removed.
    pub open spec fn after_remove(self, key: Key) -> Self {
        State {
            epoch: Epoch((self.epoch.0 + 1) as u64),
            sources: self.sources.remove(key),
            ..self
        }
    }

    /// The state after a read of the source under `key`.
    pub open spec fn after_get(self, key: Key) -> Self {
        if self.sources.contains_key(key) {
            self.registered(self.source_entry(key))
        } else {
            self
        }
    }

    /// The index of the first stored tuple that equals `param`, or the number
    /// of stored tuples if there is none.
    pub open spec fn position_of(self, param: P) -> int where P: PartialEq {
        first_equal(self.params, param, 0)
    }

    /// The state after `param` was interned.
    pub open spec fn after_intern(self, param: P) -> Self where P: PartialEq {
        if self.position_of(param) < self.params.len() {
            self
        } else {
            State { params: self.params.push(param), ..self }
        }
    }

    /// What a run of reads and memoized calls does to the dependency stack:
    /// the same user functions are running, the frames below the top one are
    /// untouched, and the top one only grows, by entries recorded at the
    /// current epoch.
    pub open spec fn stack_follows(self, pre: Self) -> bool {
        &&& self.running == pre.running
        &&& self.verifying == pre.verifying
        &&& self.stack.len() == pre.stack.len()
        &&& forall|i: int| 0 <= i < pre.stack.len() - 1 ==> #[trigger] self.stack[i] == pre.stack[i]
        &&& pre.stack.len() > 0 ==> {
            &&& is_prefix(pre.stack.last(), self.stack.last())
            &&& forall|j: int|
                pre.stack.last().len() <= j < self.stack.last().len() ==> (
                #[trigger] self.stack.last()[j]).1.time_verified_or_updated == self.epoch
        }
    }

    /// What a run of reads and memoized calls does to the derived nodes: each
    /// node is as `pre` had it, but for the time of its last verification, or
    /// a user function has run and the node has all its dependencies recorded
    /// at the current epoch; and the node of a memoized call whose user
    /// function is running, or that is asking its stored dependencies, is not
    /// touched.
    pub open spec fn nodes_follow(self, pre: Self) -> bool {
        &&& forall|id: DerivedNodeId| #[trigger]
            self.derived.contains_key(id) ==> (pre.derived.contains_key(id) && same_content(
                self.derived[id],
                pre.derived[id],
            )) || (recorded_at(self.derived[id], self.epoch) && self.executions > pre.executions)
        &&& forall|id: DerivedNodeId| #[trigger]
            pre.running.contains(id) ==> self.untouched(pre, id)
        &&& forall|id: DerivedNodeId| #[trigger]
            pre.verifying.contains(id) ==> self.untouched(pre, id)
    }

    /// The node under `id` is in `self` as it is in `pre`, but for the time of
    /// its last verification: stored in both with one content, or in neither.
    pub open spec fn untouched(self, pre: Self, id: DerivedNodeId) -> bool {
        &&& self.derived.contains_key(id) == pre.derived.contains_key(id)
        &&& pre.derived.contains_key(id) ==> same_content(self.derived[id], pre.derived[id])
    }

    /// What every run of reads and memoized calls does to an engine, and so
    /// what a user function may do to it: `self` is the state after, `pre` the
    /// state before. The clock and the sources stand still, parameters are
    /// only added, the stack is treated as `stack_follows` says and the nodes
    /// as `nodes_follow` says, no derived node is lost, and a node that was up
    /// to date still is, with the content it had.
    pub open spec fn follows(self, pre: Self) -> bool {
        &&& self.epoch == pre.epoch
        &&& self.sources == pre.sources
        &&& is_prefix(pre.params, self.params)
        &&& self.stack_follows(pre)
        &&& self.nodes_follow(pre)
        &&& forall|id: DerivedNodeId| #[trigger]
            pre.derived.contains_key(id) ==> self.derived.contains_key(id)
        &&& forall|id: DerivedNodeId, depth: nat| #[trigger]
            pre.fresh(id, depth) ==> self.fresh(id, depth) && same_content(
                self.derived[id],
                pre.derived[id],
            )
        &&& self.executions >= pre.executions
    }
}

impl<S, P, R> State<S, P, R> {
    /// No depth shows the derived node `id` up to date.
    pub open spec fn never_fresh(self, id: DerivedNodeId) -> bool {
        forall|depth: nat| !#[trigger] self.fresh(id, depth)
    }

    /// `self` keeps what `pre` knew of its up-to-date nodes: the clock, the
    /// sources and the parameters are those of `pre`, no derived node is lost,
    /// and a node of `pre` has kept its content unless it was not up to date
    /// at any depth.
    pub open spec fn keeps_fresh_of(self, pre: Self) -> bool {
        &&& self.epoch == pre.epoch
        &&& self.sources == pre.sources
        &&& is_prefix(pre.params, self.params)
        &&& forall|id: DerivedNodeId| #[trigger]
            pre.derived.contains_key(id) ==> self.derived.contains_key(id) && (same_content(
                self.derived[id],
                pre.derived[id],
            ) || pre.never_fresh(id))
    }

    /// A stored node whose dependencies were all recorded at the current epoch
    /// is up to date at every depth.
    pub proof fn lemma_recorded_now_is_fresh(self, id: DerivedNodeId, depth: nat)
        requires
            self.derived.contains_key(id),
            recorded_at(self.derived[id], self.epoch),
        ensures
            self.fresh(id, depth),
    {
        assert forall|j: int| 0 <= j < self.derived[id].dependencies@.len() implies self.dependency_settled(
            #[trigger] self.derived[id].dependencies@[j],
            depth,
        ) by {}
    }

    /// Where `self` keeps what `pre` knew, a node that was up to date in `pre`
    /// is up to date in `self`, with the content it had.
    pub proof fn lemma_fresh_carries(self, pre: Self, id: DerivedNodeId, depth: nat)
        requires
            self.keeps_fresh_of(pre),
            pre.fresh(id, depth),
        ensures
            self.fresh(id, depth),
            same_content(self.derived[id], pre.derived[id]),
        decreases depth,
    {
        assert(pre.derived.contains_key(id));
        assert(!pre.never_fresh(id));
        assert forall|j: int| 0 <= j < self.derived[id].dependencies@.len() implies self.dependency_settled(
            #[trigger] self.derived[id].dependencies@[j],
            depth,
        ) by {
            let dep = pre.derived[id].dependencies@[j];
            assert(dep == self.derived[id].dependencies@[j]);
            assert(pre.dependency_settled(dep, depth));
            if dep.time_verified_or_updated != pre.epoch {
                match dep.node_to {
                    NodeKind::Source(_) => {},
                    NodeKind::Derived(d) => {
                        assert(pre.derived.contains_key(d));
                        assert(pre.fresh(d, (depth - 1) as nat));
                        assert(!pre.never_fresh(d));
                        self.lemma_fresh_carries(pre, d, (depth - 1) as nat);
                    },
                }
            }
        }
    }

    /// Where `self` keeps what `pre` knew and treats the stack, the nodes and the
    /// count of executions as `follows` asks, `self` follows `pre`.
    pub proof fn lemma_follows_from_keeps(self, pre: Self)
        requires
            self.keeps_fresh_of(pre),
            self.stack_follows(pre),
            self.nodes_follow(pre),
            self.executions >= pre.executions,
        ensures
            self.follows(pre),
    {
        assert forall|id: DerivedNodeId, depth: nat| #[trigger] pre.fresh(id, depth) implies self.fresh(
            id,
            depth,
        ) && same_content(self.derived[id], pre.derived[id]) by {
            self.lemma_fresh_carries(pre, id, depth);
        }
    }

    /// Every state follows itself.
    pub proof fn lemma_follows_reflexive(self)
        ensures
            self.follows(self),
    {
    }

    /// What follows a state that follows `pre` follows `pre`.
    pub proof fn lemma_follows_transitive(self, mid: Self, pre: Self)
        requires
            mid.follows(pre),
            self.follows(mid),
        ensures
            self.follows(pre),
    {
        assert forall|id: DerivedNodeId, depth: nat| #[trigger] pre.fresh(id, depth) implies self.fresh(
            id,
            depth,
        ) && same_content(self.derived[id], pre.derived[id]) by {
            assert(mid.fresh(id, depth));
        }
        if pre.stack.len() > 0 {
            assert(is_prefix(pre.stack.last(), mid.stack.last()));
            assert(is_prefix(mid.stack.last(), self.stack.last()));
            assert forall|i: int| 0 <= i < pre.stack.last().len() implies #[trigger] self.stack.last()[i]
                == pre.stack.last()[i] by {
                assert(mid.stack.last()[i] == pre.stack.last()[i]);
            }
            assert forall|j: int| pre.stack.last().len() <= j < self.stack.last().len() implies (
            #[trigger] self.stack.last()[j]).1.time_verified_or_updated == self.epoch by {
                if j < mid.stack.last().len() {
                    assert(self.stack.last()[j] == mid.stack.last()[j]);
                }
            }
        }
        assert forall|i: int| 0 <= i < pre.stack.len() - 1 implies #[trigger] self.stack[i]
            == pre.stack[i] by {
            assert(mid.stack[i] == pre.stack[i]);
        }
        assert forall|id: DerivedNodeId| #[trigger] self.derived.contains_key(id) implies (
        pre.derived.contains_key(id) && same_content(self.derived[id], pre.derived[id])) || (
        recorded_at(self.derived[id], self.epoch) && self.executions > pre.executions) by {
            if !(recorded_at(self.derived[id], self.epoch) && self.executions > mid.executions) {
                assert(mid.derived.contains_key(id));
                assert(same_content(self.derived[id], mid.derived[id]));
            }
        }
        assert forall|i: int| 0 <= i < pre.params.len() implies #[trigger] self.params[i]
            == pre.params[i] by {
            assert(mid.params[i] == pre.params[i]);
        }
        assert forall|id: DerivedNodeId| #[trigger] pre.running.contains(id) implies self.untouched(
            pre,
            id,
        ) by {
            assert(mid.running.contains(id));
            assert(mid.untouched(pre, id));
            assert(self.untouched(mid, id));
        }
        assert forall|id: DerivedNodeId| #[trigger] pre.verifying.contains(id) implies self.untouched(
            pre,
            id,
        ) by {
            assert(mid.verifying.contains(id));
            assert(mid.untouched(pre, id));
            assert(self.untouched(mid, id));
        }
    }
}

impl<S, P, R> State<S, P, R> {
    /// A dependency that needed no second look in `pre` needs none in a state
    /// that follows `pre`.
    pub proof fn lemma_settled_carries(self, pre: Self, dep: Dependency, depth: nat)
        requires
            self.follows(pre),
            pre.dependency_settled(dep, depth),
        ensures
            self.dependency_settled(dep, depth),
    {
        if dep.time_verified_or_updated != pre.epoch {
            match dep.node_to {
                NodeKind::Source(_) => {},
                NodeKind::Derived(id) => {
                    assert(pre.fresh(id, (depth - 1) as nat));
                    assert(pre.params[id.param_id.0 as int] == self.params[id.param_id.0 as int]);
                },
            }
        }
    }

    /// Opening a frame, letting a run of reads and memoized calls pass, and
    /// closing the frame again is itself such a run, and leaves the stack as
    /// it was.
    pub proof fn lemma_follows_across_frame(
        self,
        after: Self,
        opened: Self,
        pre: Self,
        owner: DerivedNodeId,
    )
        requires
            opened == pre.opened(owner),
            after.follows(opened),
            self == after.closed(),
        ensures
            self.follows(pre),
            self.stack == pre.stack,
            forall|j: int|
                0 <= j < after.stack.last().len() ==> (
                #[trigger] after.stack.last()[j]).1.time_verified_or_updated == pre.epoch,
    {
        assert(opened.keeps_fresh_of(pre));
        assert forall|id: DerivedNodeId| #[trigger] pre.derived.contains_key(id) implies (
        self.derived.contains_key(id) && (same_content(self.derived[id], pre.derived[id])
            || pre.never_fresh(id))) by {
            if !pre.never_fresh(id) {
                let depth = choose|depth: nat| pre.fresh(id, depth);
                opened.lemma_fresh_carries(pre, id, depth);
            }
        }
        assert(self.keeps_fresh_of(pre));
        assert forall|i: int| 0 <= i < pre.stack.len() implies #[trigger] self.stack[i]
            == pre.stack[i] by {
            assert(after.stack[i] == opened.stack[i]);
        }
        assert(self.stack =~= pre.stack);
        assert(self.running =~= pre.running);
        assert(self.stack_follows(pre));
        assert forall|id: DerivedNodeId| #[trigger] pre.running.contains(id) implies self.untouched(
            pre,
            id,
        ) by {
            assert(opened.running[pre.running.index_of(id)] == id);
            assert(opened.running.contains(id));
            assert(after.untouched(opened, id));
        }
        assert(self.nodes_follow(pre));
        self.lemma_follows_from_keeps(pre);
        assert(opened.stack.last() =~= Seq::<FrameEntry>::empty());
    }

    /// The two states hold the same clock, sources, parameters and derived
    /// nodes.
    pub open spec fn same_tables(self, other: Self) -> bool {
        &&& self.epoch == other.epoch
        &&& self.sources == other.sources
        &&& self.params == other.params
        &&& self.derived == other.derived
    }

    /// What stored dependencies say depends on the clock, the sources, the
    /// parameters and the derived nodes alone.
    pub proof fn lemma_verdict_same_tables(
        self,
        other: Self,
        dependencies: Seq<Dependency>,
        from: int,
    )
        requires
            self.same_tables(other),
        ensures
            self.verdict(dependencies, from) == other.verdict(dependencies, from),
            self.stops_at(dependencies, from) == other.stops_at(dependencies, from),
        decreases dependencies.len() - from,
    {
        if 0 <= from < dependencies.len() {
            self.lemma_verdict_same_tables(other, dependencies, from + 1);
        }
    }

    /// Whether a node is up to date depends on the clock, the sources, the
    /// parameters and the derived nodes alone.
    pub proof fn lemma_fresh_same_tables(self, other: Self, id: DerivedNodeId, depth: nat)
        requires
            self.same_tables(other),
        ensures
            self.fresh(id, depth) == other.fresh(id, depth),
    {
        if self.fresh(id, depth) {
            other.lemma_fresh_carries(self, id, depth);
        }
        if other.fresh(id, depth) {
            self.lemma_fresh_carries(other, id, depth);
        }
    }

    /// Marking a memoized call as asking, letting a run of reads and memoized
    /// calls pass, and taking the mark off again is itself such a run; the
    /// node of the call is not touched in between.
    pub proof fn lemma_follows_across_mark(self, after: Self, pre: Self, id: DerivedNodeId)
        requires
            after.follows(pre.marked(id)),
            self == after.unmarked(),
        ensures
            self.follows(pre),
            after.untouched(pre, id),
    {
        let marked = pre.marked(id);
        assert(marked.verifying.last() == id);
        assert(marked.verifying.contains(id));
        assert(after.untouched(marked, id));
        assert(marked.keeps_fresh_of(pre));
        assert forall|other: DerivedNodeId| #[trigger] pre.derived.contains_key(other) implies (
        self.derived.contains_key(other) && (same_content(self.derived[other], pre.derived[other])
            || pre.never_fresh(other))) by {
            if !pre.never_fresh(other) {
                let depth = choose|depth: nat| pre.fresh(other, depth);
                marked.lemma_fresh_carries(pre, other, depth);
            }
        }
        assert(self.keeps_fresh_of(pre));
        assert(self.verifying =~= pre.verifying);
        assert(self.stack_follows(pre));
        assert forall|other: DerivedNodeId| #[trigger] pre.verifying.contains(other) implies self.untouched(
            pre,
            other,
        ) by {
            assert(marked.verifying[pre.verifying.index_of(other)] == other);
            assert(marked.verifying.contains(other));
            assert(after.untouched(marked, other));
        }
        assert(self.nodes_follow(pre));
        self.lemma_follows_from_keeps(pre);
    }

    /// Replacing a stored node by one of the same content, or storing the time
    /// of its verification anew, is something a run of memoized calls does.
    pub proof fn lemma_follows_after_touch(self, pre: Self, id: DerivedNodeId)
        requires
            pre.derived.contains_key(id),
            self.derived.contains_key(id),
            same_content(self.derived[id], pre.derived[id]),
            self == (State { derived: pre.derived.insert(id, self.derived[id]), ..pre }),
        ensures
            self.follows(pre),
    {
        assert(self.keeps_fresh_of(pre));
        assert(self.stack_follows(pre));
        assert(self.nodes_follow(pre));
        self.lemma_follows_from_keeps(pre);
    }

    /// Installing a node whose dependencies were recorded at the current
    /// epoch, in a state that follows `pre` and in which a user function has
    /// run, under an identity that was not up to date in `pre`, gives a state
    /// that follows `pre`.
    pub proof fn lemma_follows_after_install(self, mid: Self, pre: Self, id: DerivedNodeId)
        requires
            mid.follows(pre),
            mid.executions > pre.executions,
            !pre.busy(id),
            pre.never_fresh(id),
            self.derived.contains_key(id),
            recorded_at(self.derived[id], mid.epoch),
            self == (State { derived: mid.derived.insert(id, self.derived[id]), ..mid }),
        ensures
            self.follows(pre),
    {
        assert forall|other: DerivedNodeId| #[trigger] pre.derived.contains_key(other) implies (
        self.derived.contains_key(other) && (same_content(self.derived[other], pre.derived[other])
            || pre.never_fresh(other))) by {
            if other != id && !pre.never_fresh(other) {
                let depth = choose|depth: nat| pre.fresh(other, depth);
                assert(mid.fresh(other, depth));
            }
        }
        assert(self.keeps_fresh_of(pre));
        assert(self.stack_follows(pre));
        assert forall|other: DerivedNodeId| #[trigger] self.derived.contains_key(other) implies (
        pre.derived.contains_key(other) && same_content(self.derived[other], pre.derived[other]))
            || (recorded_at(self.derived[other], self.epoch) && self.executions
            > pre.executions) by {
            if other != id {
                assert(mid.derived.contains_key(other));
            }
        }
        self.lemma_follows_from_keeps(pre);
    }
}

} // verus!
