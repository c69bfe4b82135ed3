use crate::database::Database;
use crate::epoch::Epoch;
use crate::error::EngineError;
use crate::key::{Key, ParamId};
use crate::node::{Dependency, DerivedNode, DerivedNodeId, NodeKind};
use crate::state::{entry_wf, recorded_at, same_content, FrameEntry, State, Verdict};
use vstd::prelude::*;
use vstd::std_specs::cmp::PartialEqSpec;

verus! {

/// What a memoized call did to produce its value.
#[derive(Clone, Copy, Debug, PartialEq, Eq, Structural)]
pub enum DidRecalculate {
    /// The stored value stands.
    ReusedMemoizedValue,
    /// The user function ran and a new value was installed.
    Recalculated,
}

/// The latest time of update among the entries of a frame; the first epoch
/// for a frame without entries.
pub open spec fn latest_update(entries: Seq<FrameEntry>) -> Epoch
    decreases entries.len(),
{
    if entries.len() == 0 {
        Epoch::initial()
    } else {
        latest_update(entries.drop_last()).later(entries.last().0)
    }
}

/// The dependencies that the entries of a frame carry, in their order.
pub open spec fn edges(entries: Seq<FrameEntry>) -> Seq<Dependency> {
    Seq::new(entries.len(), |i: int| entries[i].1)
}

/// The latest time at which a dependency in `dependencies` was recorded; the
/// first epoch for an empty list.
pub open spec fn latest_recorded(dependencies: Seq<Dependency>) -> Epoch
    decreases dependencies.len(),
{
    if dependencies.len() == 0 {
        Epoch::initial()
    } else {
        latest_recorded(dependencies.drop_last()).later(
            dependencies.last().time_verified_or_updated,
        )
    }
}

/// Splits the entries of a closed frame into the dependency list of the node
/// and the time at which the node's value counts as updated.
pub fn collect_dependencies(entries: Vec<FrameEntry>) -> (out: (Vec<Dependency>, Epoch))
    ensures
        out.0@ == edges(entries@),
        out.1 == latest_update(entries@),
{
    let mut dependencies: Vec<Dependency> = Vec::new();
    let mut time_updated = Epoch::new();
    let n = entries.len();
    let mut i: usize = 0;
    while i < n
        invariant
            i <= n,
            n == entries@.len(),
            dependencies@ == edges(entries@.take(i as int)),
            time_updated == latest_update(entries@.take(i as int)),
        decreases n - i,
    {
        let entry = entries[i];
        dependencies.push(entry.1);
        time_updated = time_updated.max(entry.0);
        proof {
            let before = entries@.take(i as int);
            let after = entries@.take(i + 1);
            assert(after.drop_last() =~= before);
            assert(after.last() == entry);
            assert(dependencies@ =~= edges(after));
        }
        i = i + 1;
    }
    proof {
        assert(entries@.take(n as int) =~= entries@);
    }
    (dependencies, time_updated)
}

/// The node that a run of the user function leaves behind, given the node
/// that was stored: an equal value keeps the stored value and the time of its
/// last change, another value replaces both; the dependencies and the time of
/// verification are the new ones either way.
pub open spec fn refreshed<R: PartialEq>(
    stored: DerivedNode<R>,
    value: R,
    dependencies: Vec<Dependency>,
    time_updated: Epoch,
    now: Epoch,
) -> DerivedNode<R> {
    if stored.value.eq_spec(&value) {
        DerivedNode { dependencies, time_verified: now, ..stored }
    } else {
        DerivedNode { dependencies, time_verified: now, time_updated, value, ..stored }
    }
}

/// Brings a stored node up to date after its user function ran again. Where
/// the new value equals the stored one the stored value and its time of
/// update stay, and the node counts as reused: this is the early cut that
/// spares the node's dependents.
pub fn refresh_node<R: PartialEq>(
    node: &mut DerivedNode<R>,
    value: R,
    dependencies: Vec<Dependency>,
    time_updated: Epoch,
    now: Epoch,
) -> (did: DidRecalculate)
    ensures
        final(node).dependencies == dependencies,
        final(node).time_verified == now,
        final(node).inner_fn == old(node).inner_fn,
        did == DidRecalculate::ReusedMemoizedValue ==> final(node).value == old(node).value
            && final(node).time_updated == old(node).time_updated,
        did == DidRecalculate::Recalculated ==> final(node).value == value
            && final(node).time_updated == time_updated,
        R::obeys_eq_spec() ==> *final(node) == refreshed(
            *old(node),
            value,
            dependencies,
            time_updated,
            now,
        ) && (did == DidRecalculate::ReusedMemoizedValue <==> old(node).value.eq_spec(&value)),
{
    let mut did = DidRecalculate::ReusedMemoizedValue;
    if !(node.value == value) {
        node.value = value;
        node.time_updated = time_updated;
        did = DidRecalculate::Recalculated;
    }
    node.dependencies = dependencies;
    node.time_verified = now;
    did
}

/// Whether the source under `key` has been given a new value after `since`.
/// A source that is gone is an error, not a change.
pub fn source_node_changed_since<S, P, R>(db: &Database<S, P, R>, key: Key, since: Epoch) -> (r:
    Result<bool, EngineError>)
    ensures
        r == (if db@.sources.contains_key(key) {
            Ok::<bool, EngineError>(db@.sources[key].time_updated.0 > since.0)
        } else {
            Err(EngineError::SourceNotFound)
        }),
{
    match db.source_node(key) {
        Some(source) => Ok(source.time_updated.0 > since.0),
        None => Err(EngineError::SourceNotFound),
    }
}

/// Records in the frame of the calling user function, if there is one, that
/// it has used `node`, whose value last changed at `time_updated`.
pub fn register_dependency_in_parent_memoized_fn<S, P, R>(
    db: &mut Database<S, P, R>,
    node: NodeKind,
    time_updated: Epoch,
    current_epoch: Epoch,
)
    requires
        old(db)@.wf(),
        current_epoch == old(db)@.epoch,
        1 <= time_updated.0 <= current_epoch.0,
    ensures
        final(db)@.wf(),
        final(db)@ == old(db)@.registered(
            (time_updated, Dependency { node_to: node, time_verified_or_updated: current_epoch }),
        ),
        final(db)@.follows(old(db)@),
{
    db.register(
        (time_updated, Dependency { node_to: node, time_verified_or_updated: current_epoch }),
    );
}

/// Every time of update in a sound frame lies between the first epoch and
/// `now`, and so does the latest of them.
pub proof fn lemma_latest_update_bounds(entries: Seq<FrameEntry>, now: Epoch)
    requires
        now.0 >= 1,
        forall|j: int| 0 <= j < entries.len() ==> entry_wf(#[trigger] entries[j], now),
    ensures
        1 <= latest_update(entries).0 <= now.0,
    decreases entries.len(),
{
    if entries.len() > 0 {
        let front = entries.drop_last();
        assert forall|j: int| 0 <= j < front.len() implies entry_wf(#[trigger] front[j], now) by {
            assert(front[j] == entries[j]);
        }
        lemma_latest_update_bounds(front, now);
        assert(entry_wf(entries[entries.len() - 1], now));
    }
}

/// Runs the user function for `key` and `param_id` under a frame of its own
/// and hands back what it returned with the entries that it recorded.
fn with_dependency_tracking<S, P, R, F>(
    db: &mut Database<S, P, R>,
    key: Key,
    param_id: ParamId,
    inner_fn: &F,
) -> (out: (Result<R, EngineError>, Vec<FrameEntry>)) where
    F: Fn(&mut Database<S, P, R>, Key, ParamId) -> Result<R, EngineError>,

    requires
        old(db)@.wf(),
        forall|engine: &mut Database<S, P, R>, function: Key, param: ParamId|
            engine@.wf() && engine@.stack.len() > 0 ==> #[trigger] call_requires(
                inner_fn,
                (engine, function, param),
            ),
        forall|
            engine: &mut Database<S, P, R>,
            function: Key,
            param: ParamId,
            out: Result<R, EngineError>,
        | #[trigger]
            call_ensures(inner_fn, (engine, function, param), out) ==> final(engine)@.wf()
                && final(engine)@.follows(engine@),
    ensures
        final(db)@.wf(),
        final(db)@.follows(old(db)@),
        final(db)@.stack == old(db)@.stack,
        final(db)@.executions > old(db)@.executions,
        exists|engine: &mut Database<S, P, R>|
            {
                &&& engine@ == old(db)@.opened(DerivedNodeId { key, param_id })
                &&& #[trigger] call_ensures(inner_fn, (engine, key, param_id), out.0)
                &&& out.1@ == final(engine)@.stack.last()
                &&& final(db)@ == final(engine)@.closed()
            },
        forall|j: int|
            0 <= j < out.1@.len() ==> entry_wf(#[trigger] out.1@[j], old(db)@.epoch)
                && out.1@[j].1.time_verified_or_updated == old(db)@.epoch,
{
    let owner = DerivedNodeId { key, param_id };
    db.push_frame(owner);
    db.note_execution();
    let ghost opened = db@;
    assert(opened == old(db)@.opened(owner));
    let value = inner_fn(db, key, param_id);
    let ghost after = db@;
    assert(exists|engine: &mut Database<S, P, R>|
        {
            &&& engine@ == opened
            &&& #[trigger] call_ensures(inner_fn, (engine, key, param_id), value)
            &&& final(engine)@ == after
        });
    let frame = db.pop_frame();
    proof {
        db@.lemma_follows_across_frame(after, opened, old(db)@, owner);
    }
    match frame {
        Some(entries) => {
            assert forall|j: int| 0 <= j < entries@.len() implies entry_wf(
                #[trigger] entries@[j],
                old(db)@.epoch,
            ) && entries@[j].1.time_verified_or_updated == old(db)@.epoch by {
                assert(entries@[j] == after.stack[after.stack.len() - 1][j]);
            }
            let out = (value, entries);
            assert(out.0 == value);
            assert(out.1@ == after.stack.last());
            assert(db@ == after.closed());
            assert(exists|engine: &mut Database<S, P, R>|
                {
                    &&& engine@ == old(db)@.opened(owner)
                    &&& #[trigger] call_ensures(inner_fn, (engine, key, param_id), out.0)
                    &&& out.1@ == final(engine)@.stack.last()
                    &&& db@ == final(engine)@.closed()
                });
            out
        },
        None => (value, Vec::new()),
    }
}

/// Runs the user function for `key` and `param_id` and hands back what it
/// returned, the dependencies that it recorded and the latest time of update
/// among them.
fn call_inner_fn_and_collect_dependencies<S, P, R, F>(
    db: &mut Database<S, P, R>,
    key: Key,
    param_id: ParamId,
    inner_fn: &F,
) -> (out: (Result<R, EngineError>, Vec<Dependency>, Epoch)) where
    F: Fn(&mut Database<S, P, R>, Key, ParamId) -> Result<R, EngineError>,

    requires
        old(db)@.wf(),
        forall|engine: &mut Database<S, P, R>, function: Key, param: ParamId|
            engine@.wf() && engine@.stack.len() > 0 ==> #[trigger] call_requires(
                inner_fn,
                (engine, function, param),
            ),
        forall|
            engine: &mut Database<S, P, R>,
            function: Key,
            param: ParamId,
            out: Result<R, EngineError>,
        | #[trigger]
            call_ensures(inner_fn, (engine, function, param), out) ==> final(engine)@.wf()
                && final(engine)@.follows(engine@),
    ensures
        final(db)@.wf(),
        final(db)@.follows(old(db)@),
        final(db)@.stack == old(db)@.stack,
        final(db)@.executions > old(db)@.executions,
        exists|engine: &mut Database<S, P, R>|
            {
                &&& engine@ == old(db)@.opened(DerivedNodeId { key, param_id })
                &&& #[trigger] call_ensures(inner_fn, (engine, key, param_id), out.0)
                &&& out.1@ == edges(final(engine)@.stack.last())
                &&& out.2 == latest_update(final(engine)@.stack.last())
                &&& final(db)@ == final(engine)@.closed()
            },
        forall|j: int|
            0 <= j < out.1@.len() ==> (#[trigger] out.1@[j]).time_verified_or_updated == old(db)@.epoch,
        1 <= out.2.0 <= old(db)@.epoch.0,
{
    let ghost owner = DerivedNodeId { key, param_id };
    let (value, entries) = with_dependency_tracking(db, key, param_id, inner_fn);
    let ghost frame = entries@;
    assert(exists|engine: &mut Database<S, P, R>|
        {
            &&& engine@ == old(db)@.opened(owner)
            &&& #[trigger] call_ensures(inner_fn, (engine, key, param_id), value)
            &&& frame == final(engine)@.stack.last()
            &&& db@ == final(engine)@.closed()
        });
    proof {
        lemma_latest_update_bounds(entries@, old(db)@.epoch);
    }
    let (dependencies, time_updated) = collect_dependencies(entries);
    let out = (value, dependencies, time_updated);
    assert(out.0 == value);
    assert(out.1@ == edges(frame));
    assert(out.2 == latest_update(frame));
    assert(exists|engine: &mut Database<S, P, R>|
        {
            &&& engine@ == old(db)@.opened(owner)
            &&& #[trigger] call_ensures(inner_fn, (engine, key, param_id), out.0)
            &&& out.1@ == edges(final(engine)@.stack.last())
            &&& out.2 == latest_update(final(engine)@.stack.last())
            &&& db@ == final(engine)@.closed()
        });
    out
}

/// How many derived nodes, one below the other, the engine follows when it
/// verifies stored dependencies.
pub const MAX_DEPTH: u64 = u64::MAX;

impl DidRecalculate {
    /// Whether a new value was installed.
    pub fn is_recalculated(self) -> (b: bool)
        ensures
            b == (self == DidRecalculate::Recalculated),
    {
        match self {
            DidRecalculate::Recalculated => true,
            DidRecalculate::ReusedMemoizedValue => false,
        }
    }
}

/// Whether a dependency on a derived node has changed, given how the
/// memoized call that brought the node up to date ended: it has if the call
/// recalculated the node; an error of the call is the answer's error.
pub open spec fn answer(outcome: Result<DidRecalculate, EngineError>) -> Result<bool, EngineError> {
    match outcome {
        Ok(did) => Ok(did == DidRecalculate::Recalculated),
        Err(e) => Err(e),
    }
}

/// What a memoized call of `id`, `depth` levels deep, does to an engine
/// whatever the user functions do: `pre` is the state before, `post` the
/// state after, `r` the result.
///
/// The engine stays sound and the call is a run of reads and memoized calls;
/// it interns nothing itself. A node that is up to date is reused without a
/// run. A node that has to run while it is under way is a cycle, and otherwise
/// runs. A stored node whose dependencies answer without a memoized call is
/// confirmed where none has changed and fails where a source is gone; one
/// whose dependency would have to be asked deeper than `depth` fails. After
/// success the node is up to date, verified at the current epoch and
/// recorded last in the frame of its caller.
pub open spec fn memo_settles<S, P, R>(
    pre: State<S, P, R>,
    post: State<S, P, R>,
    id: DerivedNodeId,
    depth: nat,
    r: Result<DidRecalculate, EngineError>,
) -> bool {
    &&& post.wf()
    &&& post.follows(pre)
    &&& post.executions == pre.executions ==> post.params == pre.params
    &&& forall|k: nat| #[trigger]
        pre.fresh(id, k) ==> {
            &&& post.executions == pre.executions
            &&& r == Ok::<DidRecalculate, EngineError>(DidRecalculate::ReusedMemoizedValue) || r
                == Err::<DidRecalculate, EngineError>(EngineError::TooDeep)
            &&& k <= depth ==> r == Ok::<DidRecalculate, EngineError>(
                DidRecalculate::ReusedMemoizedValue,
            )
        }
    &&& pre.must_run(id) ==> (if pre.busy(id) {
        r == Err::<DidRecalculate, EngineError>(EngineError::Cycle) && post == pre
    } else {
        post.executions > pre.executions
    })
    &&& pre.derived.contains_key(id) ==> {
        &&& pre.verdict_of(id) is Missing ==> r == Err::<DidRecalculate, EngineError>(
            EngineError::SourceNotFound,
        ) && post == pre
        &&& pre.verdict_of(id) is Unchanged ==> r == Ok::<DidRecalculate, EngineError>(
            DidRecalculate::ReusedMemoizedValue,
        ) && post == pre.confirmed(id)
        &&& pre.verdict_of(id) is Asks && depth == 0 ==> r == Err::<DidRecalculate, EngineError>(
            EngineError::TooDeep,
        ) && post == pre
    }
    &&& match r {
        Ok(did) => {
            &&& post.derived.contains_key(id)
            &&& post.fresh(id, depth)
            &&& post.derived[id].time_verified == pre.epoch
            &&& pre.stack.len() > 0 ==> post.stack.last().len() > 0 && post.stack.last().last()
                == post.derived_entry(id)
            &&& did == DidRecalculate::ReusedMemoizedValue ==> pre.derived.contains_key(id)
                && post.derived[id].value == pre.derived[id].value && post.derived[id].time_updated
                == pre.derived[id].time_updated
            &&& did == DidRecalculate::Recalculated ==> post.executions > pre.executions
                && recorded_at(post.derived[id], pre.epoch)
        },
        Err(_) => true,
    }
}

/// How the asking of `dependencies` ends after the first derived node among
/// them was brought up to date by a memoized call: `mid` is the state that
/// the call has left, `first` its answer, `next` the place after the node,
/// `post` the state in which the asking ends and `r` its answer.
///
/// The error of the call, or its answer "has changed", ends the asking.
/// Otherwise the asking goes on, and ends as the dependencies from `next` on
/// say in `mid`; where another derived node has to be brought up to date
/// nothing is said here.
pub open spec fn asked_on<S, P, R>(
    mid: State<S, P, R>,
    first: Result<bool, EngineError>,
    dependencies: Seq<Dependency>,
    next: int,
    post: State<S, P, R>,
    r: Result<bool, EngineError>,
) -> bool {
    if first != Ok::<bool, EngineError>(false) {
        r == first && post == mid
    } else {
        match mid.verdict(dependencies, next) {
            Verdict::Unchanged => r == Ok::<bool, EngineError>(false) && post == mid,
            Verdict::Changed => r == Ok::<bool, EngineError>(true) && post == mid,
            Verdict::Missing => r == Err::<bool, EngineError>(EngineError::SourceNotFound)
                && post == mid,
            Verdict::Asks => true,
        }
    }
}

/// Whether `asked_on` says how the asking ends: no second derived node has to
/// be brought up to date.
pub open spec fn decided<S, P, R>(
    mid: State<S, P, R>,
    first: Result<bool, EngineError>,
    dependencies: Seq<Dependency>,
    next: int,
) -> bool {
    first != Ok::<bool, EngineError>(false) || !(mid.verdict(dependencies, next) is Asks)
}

/// How a memoized call of the stored node `id` ends once its dependencies
/// have been asked: `mid` is the state in which the asking ended, `verified`
/// its answer, `post` the state after the call and `r` its result.
///
/// An error of the asking is the error of the call, and nothing else
/// happens. Where nothing has changed the node is confirmed and reused. Where
/// something has changed the user function runs, unless it is under way, which
/// is a cycle.
pub open spec fn concluded<S, P, R>(
    mid: State<S, P, R>,
    verified: Result<bool, EngineError>,
    post: State<S, P, R>,
    r: Result<DidRecalculate, EngineError>,
    id: DerivedNodeId,
) -> bool {
    match verified {
        Err(e) => r == Err::<DidRecalculate, EngineError>(e) && post == mid,
        Ok(false) => r == Ok::<DidRecalculate, EngineError>(DidRecalculate::ReusedMemoizedValue)
            && post == mid.confirmed(id),
        Ok(true) => if mid.busy(id) {
            r == Err::<DidRecalculate, EngineError>(EngineError::Cycle) && post == mid
        } else {
            post.executions > mid.executions
        },
    }
}

/// How a memoized call of `id` ends once the user function has run: `pre` is
/// the state in which the run started, before its frame was opened, `ended`
/// the state in which the user function returned `out`, `post` the state
/// after the call and `r` its result.
///
/// An error of the user function is the error of the call; its frame is
/// dropped and nothing is installed. A value is installed with the
/// dependencies that the frame holds, in their order, and the call is
/// recorded in the frame of its caller. For a node that was not stored the
/// value counts as updated at the latest time of update in the frame. For a
/// stored node a value equal to the stored one keeps the stored value and
/// its time of update, and the node counts as reused; another value replaces
/// both.
pub open spec fn run_outcome<S, P, R: PartialEq>(
    pre: State<S, P, R>,
    ended: State<S, P, R>,
    out: Result<R, EngineError>,
    post: State<S, P, R>,
    r: Result<DidRecalculate, EngineError>,
    id: DerivedNodeId,
) -> bool {
    let frame = ended.stack.last();
    match out {
        Err(e) => r == Err::<DidRecalculate, EngineError>(e) && post == ended.closed(),
        Ok(value) => {
            let node = post.derived[id];
            &&& r is Ok
            &&& post == ended.closed().installed(id, node)
            &&& node.dependencies@ == edges(frame)
            &&& node.time_verified == pre.epoch
            &&& if pre.derived.contains_key(id) {
                let stored = pre.derived[id];
                &&& node.inner_fn == stored.inner_fn
                &&& r->Ok_0 == DidRecalculate::ReusedMemoizedValue ==> node.value == stored.value
                    && node.time_updated == stored.time_updated
                &&& r->Ok_0 == DidRecalculate::Recalculated ==> node.value == value
                    && node.time_updated == latest_update(frame)
                &&& R::obeys_eq_spec() ==> (r->Ok_0 == DidRecalculate::ReusedMemoizedValue
                    <==> stored.value.eq_spec(&value)) && node == refreshed(
                    stored,
                    value,
                    node.dependencies,
                    latest_update(frame),
                    pre.epoch,
                )
            } else {
                &&& r->Ok_0 == DidRecalculate::Recalculated
                &&& node.value == value
                &&& node.time_updated == latest_update(frame)
                &&& node.inner_fn == id.key
            }
        },
    }
}

/// The dependency of a node on the derived node `id`, recorded at `since`.
pub open spec fn derived_dependency(id: DerivedNodeId, since: Epoch) -> Dependency {
    Dependency { node_to: NodeKind::Derived(id), time_verified_or_updated: since }
}

fn copy_dependencies(dependencies: &Vec<Dependency>) -> (out: Vec<Dependency>)
    ensures
        out@ == dependencies@,
{
    let mut out: Vec<Dependency> = Vec::new();
    let n = dependencies.len();
    let mut i: usize = 0;
    while i < n
        invariant
            i <= n,
            n == dependencies@.len(),
            out@ == dependencies@.take(i as int),
        decreases n - i,
    {
        out.push(dependencies[i]);
        assert(out@ =~= dependencies@.take(i + 1));
        i = i + 1;
    }
    assert(dependencies@.take(n as int) =~= dependencies@);
    out
}

/// Whether the derived node `node_id` has changed since a dependency on it
/// was recorded at `since`. A node whose parameters are not interned, or
/// that is stored with a value that changed after `since`, has changed. Any
/// other node, stored or not, is first brought up to date by a memoized call,
/// `depth - 1` levels deep; it has changed if that call recalculated it.
///
/// The second result is for the proofs alone: how the memoized call ended,
/// if one was made.
fn derived_node_changed_since<S, P, R, F>(
    db: &mut Database<S, P, R>,
    node_id: DerivedNodeId,
    since: Epoch,
    inner_fn: &F,
    depth: u64,
) -> (out: (Result<bool, EngineError>, Ghost<Option<Result<DidRecalculate, EngineError>>>)) where
    R: PartialEq,
    F: Fn(&mut Database<S, P, R>, Key, ParamId) -> Result<R, EngineError>,

    requires
        old(db)@.wf(),
        forall|engine: &mut Database<S, P, R>, function: Key, param: ParamId|
            engine@.wf() && engine@.stack.len() > 0 ==> #[trigger] call_requires(
                inner_fn,
                (engine, function, param),
            ),
        forall|
            engine: &mut Database<S, P, R>,
            function: Key,
            param: ParamId,
            out: Result<R, EngineError>,
        | #[trigger]
            call_ensures(inner_fn, (engine, function, param), out) ==> final(engine)@.wf()
                && final(engine)@.follows(engine@),
    ensures
        final(db)@.wf(),
        final(db)@.follows(old(db)@),
        final(db)@.executions == old(db)@.executions ==> final(db)@.params == old(db)@.params,
        old(db)@.plainly_changed(node_id, since) ==> out.0 == Ok::<bool, EngineError>(true) && final(db)@ == old(db)@,
        !old(db)@.plainly_changed(node_id, since) && depth == 0 ==> out.0 == Err::<bool, EngineError>(
            EngineError::TooDeep,
        ) && final(db)@ == old(db)@,
        !old(db)@.plainly_changed(node_id, since) && depth > 0 ==> out.1@ is Some && {
            let outcome = out.1@->Some_0;
            &&& memo_settles(old(db)@, final(db)@, node_id, (depth - 1) as nat, outcome)
            &&& out.0 == answer(outcome)
            &&& old(db)@.must_run(node_id) && !old(db)@.busy(node_id) ==> exists|
                engine: &mut Database<S, P, R>,
                made: Result<R, EngineError>,
            |
                {
                    &&& engine@ == old(db)@.opened(node_id)
                    &&& #[trigger] call_ensures(
                        inner_fn,
                        (engine, node_id.key, node_id.param_id),
                        made,
                    )
                    &&& run_outcome(old(db)@, final(engine)@, made, final(db)@, outcome, node_id)
                }
        },
        old(db)@.plainly_changed(node_id, since) || depth == 0 ==> out.1@ is None,
        forall|k: nat| #[trigger]
            old(db)@.dependency_unchanged(derived_dependency(node_id, since), k) ==> {
                &&& final(db)@.executions == old(db)@.executions
                &&& out.0 == Ok::<bool, EngineError>(false) || out.0 == Err::<bool, EngineError>(
                    EngineError::TooDeep,
                )
                &&& k <= depth ==> out.0 == Ok::<bool, EngineError>(false)
            },
        out.0 == Ok::<bool, EngineError>(false) ==> final(db)@.dependency_unchanged(
            derived_dependency(node_id, since),
            depth as nat,
        ),
        match out.0 {
            Ok(_) => true,
            Err(e) => e == EngineError::SourceNotFound || e == EngineError::TooDeep || (e
                == EngineError::Cycle) || exists|
                engine: &mut Database<S, P, R>,
                function: Key,
                param: ParamId,
            | #[trigger]
                call_ensures(inner_fn, (engine, function, param), Err::<R, EngineError>(e)),
        },
    decreases depth, 0nat,
{
    if db.check_interned(node_id.param_id).is_err() {
        proof {
            db@.lemma_follows_reflexive();
        }
        return (Ok(true), Ghost(None));
    }
    let changed_already = match db.derived_node(node_id) {
        Some(node) => node.time_updated.0 > since.0,
        None => false,
    };
    if changed_already {
        proof {
            db@.lemma_follows_reflexive();
        }
        return (Ok(true), Ghost(None));
    }
    if depth == 0 {
        proof {
            db@.lemma_follows_reflexive();
        }
        return (Err(EngineError::TooDeep), Ghost(None));
    }
    let outcome = memo_within(db, node_id, inner_fn, depth - 1);
    proof {
        assert forall|k: nat| #[trigger]
            old(db)@.dependency_unchanged(derived_dependency(node_id, since), k) implies {
            &&& db@.executions == old(db)@.executions
            &&& outcome == Ok::<DidRecalculate, EngineError>(DidRecalculate::ReusedMemoizedValue)
                || outcome == Err::<DidRecalculate, EngineError>(EngineError::TooDeep)
            &&& k <= depth ==> outcome == Ok::<DidRecalculate, EngineError>(
                DidRecalculate::ReusedMemoizedValue,
            )
            &&& same_content(db@.derived[node_id], old(db)@.derived[node_id])
        } by {
            assert(old(db)@.fresh(node_id, (k - 1) as nat));
        }
    }
    let ghost called = db@;
    let ghost run_described = old(db)@.must_run(node_id) && !old(db)@.busy(node_id)
        ==> exists|engine: &mut Database<S, P, R>, out: Result<R, EngineError>|
        {
            &&& engine@ == old(db)@.opened(node_id)
            &&& #[trigger] call_ensures(inner_fn, (engine, node_id.key, node_id.param_id), out)
            &&& run_outcome(old(db)@, final(engine)@, out, called, outcome, node_id)
        };
    assert(run_described);
    assert(memo_settles(old(db)@, called, node_id, (depth - 1) as nat, outcome));
    let did = match outcome {
        Ok(did) => did,
        Err(e) => {
            assert(Err::<bool, EngineError>(e) == answer(outcome));
            return (Err(e), Ghost(Some(outcome)));
        },
    };
    let changed = did.is_recalculated();
    assert(Ok::<bool, EngineError>(changed) == answer(outcome));
    (Ok(changed), Ghost(Some(outcome)))
}

/// Whether a dependency of the stored node `node_id` has changed since it was
/// recorded. The dependencies recorded at `current_epoch` are passed over;
/// the others are asked in their order, up to the first that has changed.
/// The node itself, which its caller has marked as asking, is not touched.
///
/// The second result is for the proofs alone: the state that the first
/// memoized call left and how that call ended, if one was made.
#[verifier::loop_isolation(false)]
fn any_dependency_changed<S, P, R, F>(
    db: &mut Database<S, P, R>,
    node_id: DerivedNodeId,
    current_epoch: Epoch,
    inner_fn: &F,
    depth: u64,
) -> (out: (
    Result<bool, EngineError>,
    Ghost<Option<(State<S, P, R>, Result<DidRecalculate, EngineError>)>>,
)) where
    R: PartialEq,
    F: Fn(&mut Database<S, P, R>, Key, ParamId) -> Result<R, EngineError>,

    requires
        old(db)@.wf(),
        old(db)@.derived.contains_key(node_id),
        old(db)@.verifying.contains(node_id),
        current_epoch == old(db)@.epoch,
        forall|engine: &mut Database<S, P, R>, function: Key, param: ParamId|
            engine@.wf() && engine@.stack.len() > 0 ==> #[trigger] call_requires(
                inner_fn,
                (engine, function, param),
            ),
        forall|
            engine: &mut Database<S, P, R>,
            function: Key,
            param: ParamId,
            out: Result<R, EngineError>,
        | #[trigger]
            call_ensures(inner_fn, (engine, function, param), out) ==> final(engine)@.wf()
                && final(engine)@.follows(engine@),
    ensures
        final(db)@.wf(),
        final(db)@.follows(old(db)@),
        same_content(final(db)@.derived[node_id], old(db)@.derived[node_id]),
        forall|k: nat| #[trigger]
            old(db)@.fresh(node_id, k) ==> {
                &&& final(db)@.executions == old(db)@.executions
                &&& out.0 == Ok::<bool, EngineError>(false) || out.0 == Err::<bool, EngineError>(
                    EngineError::TooDeep,
                )
                &&& k <= depth ==> out.0 == Ok::<bool, EngineError>(false)
            },
        out.0 == Ok::<bool, EngineError>(false) ==> final(db)@.fresh(node_id, depth as nat),
        final(db)@.executions == old(db)@.executions ==> final(db)@.params == old(db)@.params,
        old(db)@.verdict_of(node_id) is Unchanged ==> out.0 == Ok::<bool, EngineError>(false) && final(db)@ == old(db)@,
        old(db)@.verdict_of(node_id) is Changed ==> out.0 == Ok::<bool, EngineError>(true) && final(db)@ == old(db)@,
        old(db)@.verdict_of(node_id) is Missing ==> out.0 == Err::<bool, EngineError>(
            EngineError::SourceNotFound,
        ) && final(db)@ == old(db)@,
        old(db)@.verdict_of(node_id) is Asks && depth == 0 ==> out.0 == Err::<bool, EngineError>(
            EngineError::TooDeep,
        ) && final(db)@ == old(db)@,
        old(db)@.verdict_of(node_id) is Asks && depth > 0 ==> out.1@ is Some && {
            let mid = out.1@->Some_0.0;
            let outcome = out.1@->Some_0.1;
            let dependencies = old(db)@.derived[node_id].dependencies@;
            let place = old(db)@.stops_at(dependencies, 0);
            let asked = dependencies[place].node_to->Derived_0;
            let since = dependencies[place].time_verified_or_updated;
            &&& 0 <= place < dependencies.len()
            &&& dependencies[place].node_to is Derived
            &&& memo_settles(old(db)@, mid, asked, (depth - 1) as nat, outcome)
            &&& old(db)@.must_run(asked) && !old(db)@.busy(asked) ==> exists|
                engine: &mut Database<S, P, R>,
                made: Result<R, EngineError>,
            |
                {
                    &&& engine@ == old(db)@.opened(asked)
                    &&& #[trigger] call_ensures(inner_fn, (engine, asked.key, asked.param_id), made)
                    &&& run_outcome(old(db)@, final(engine)@, made, mid, outcome, asked)
                }
            &&& asked_on(
                mid,
                answer(outcome),
                dependencies,
                place + 1,
                final(db)@,
                out.0,
            )
        },
        match out.0 {
            Ok(_) => true,
            Err(e) => {
                ||| exists|engine: &mut Database<S, P, R>, function: Key, param: ParamId|
                    #[trigger] call_ensures(
                        inner_fn,
                        (engine, function, param),
                        Err::<R, EngineError>(e),
                    )
                ||| e == EngineError::SourceNotFound && (old(db)@.verdict_of(node_id) is Missing
                    || old(db)@.verdict_of(node_id) is Asks)
                ||| e == EngineError::TooDeep && old(db)@.verdict_of(node_id) is Asks
                ||| e == EngineError::Cycle && old(db)@.verdict_of(node_id) is Asks
            },
        },
    decreases depth, 1nat,
{
    let dependencies = match db.derived_node(node_id) {
        Some(node) => copy_dependencies(&node.dependencies),
        None => Vec::new(),
    };
    let n = dependencies.len();
    let mut i: usize = 0;
    let ghost mut asked = false;
    let ghost mut again = false;
    let ghost mut first_mid = db@;
    let ghost mut first_outcome = Ok::<DidRecalculate, EngineError>(DidRecalculate::Recalculated);
    let ghost mut first_place: int = 0;
    proof {
        db@.lemma_follows_reflexive();
    }
    while i < n
        invariant
            i <= n,
            n == dependencies@.len(),
            dependencies@ == old(db)@.derived[node_id].dependencies@,
            db@.wf(),
            db@.follows(old(db)@),
            db@.executions == old(db)@.executions ==> db@.params == old(db)@.params,
            !asked ==> db@ == old(db)@ && old(db)@.verdict(dependencies@, 0) == old(db)@.verdict(
                dependencies@,
                i as int,
            ) && old(db)@.stops_at(dependencies@, 0) == old(db)@.stops_at(dependencies@, i as int),
            asked ==> old(db)@.verdict(dependencies@, 0) is Asks && depth > 0,
            asked ==> {
                let first = dependencies@[first_place].node_to->Derived_0;
                let since = dependencies@[first_place].time_verified_or_updated;
                &&& 0 <= first_place < i
                &&& first_place == old(db)@.stops_at(dependencies@, 0)
                &&& dependencies@[first_place].node_to is Derived
                &&& memo_settles(old(db)@, first_mid, first, (depth - 1) as nat, first_outcome)
                &&& answer(first_outcome) == Ok::<bool, EngineError>(false)
                &&& old(db)@.must_run(first) && !old(db)@.busy(first) ==> exists|
                    engine: &mut Database<S, P, R>,
                    out: Result<R, EngineError>,
                |
                    {
                        &&& engine@ == old(db)@.opened(first)
                        &&& #[trigger] call_ensures(inner_fn, (engine, first.key, first.param_id), out)
                        &&& run_outcome(
                            old(db)@,
                            final(engine)@,
                            out,
                            first_mid,
                            first_outcome,
                            first,
                        )
                    }
            },
            asked && !again ==> db@ == first_mid && first_mid.verdict(
                dependencies@,
                first_place + 1,
            ) == first_mid.verdict(dependencies@, i as int),
            again ==> asked,
            asked && again ==> first_mid.verdict(dependencies@, first_place + 1) is Asks,
            forall|k: nat| #[trigger]
                old(db)@.fresh(node_id, k) ==> db@.executions == old(db)@.executions,
            forall|j: int|
                0 <= j < i ==> db@.dependency_settled(#[trigger] dependencies@[j], depth as nat),
        decreases n - i,
    {
        let dependency = dependencies[i];
        let ghost before = db@;
        if dependency.time_verified_or_updated != current_epoch {
            let since = dependency.time_verified_or_updated;
            let (changed, called) = match dependency.node_to {
                NodeKind::Source(key) => (source_node_changed_since(db, key, since), Ghost(None)),
                NodeKind::Derived(id) => derived_node_changed_since(db, id, since, inner_fn, depth),
            };
            proof {
                let after = db@;
                match dependency.node_to {
                    NodeKind::Source(key) => {},
                    NodeKind::Derived(id) => {
                        if !before.plainly_changed(id, since) && depth > 0 {
                            if !asked {
                                let outcome = called@->Some_0;
                                assert(before == old(db)@);
                                assert(old(db)@.stops_at(dependencies@, i as int) == i);
                                assert(old(db)@.verdict(dependencies@, i as int) is Asks);
                                first_mid = after;
                                first_outcome = outcome;
                                first_place = i as int;
                                asked = true;
                            } else {
                                if !again {
                                    assert(before == first_mid);
                                    assert(dependencies@[i as int] == dependency);
                                    assert(first_mid.verdict(dependencies@, i as int) is Asks);
                                    assert(first_mid.verdict(dependencies@, first_place + 1) is Asks);
                                }
                                again = true;
                            }
                        }
                    },
                }
                db@.lemma_follows_transitive(before, old(db)@);
                assert forall|k: nat| #[trigger] old(db)@.fresh(node_id, k) implies {
                    &&& db@.executions == old(db)@.executions
                    &&& changed == Ok::<bool, EngineError>(false) || changed == Err::<
                        bool,
                        EngineError,
                    >(EngineError::TooDeep)
                    &&& k <= depth ==> changed == Ok::<bool, EngineError>(false)
                } by {
                    assert(before.fresh(node_id, k));
                    assert(before.derived[node_id].dependencies@[i as int] == dependency);
                    assert(before.dependency_settled(dependency, k));
                    assert(before.dependency_unchanged(dependency, k));
                    match dependency.node_to {
                        NodeKind::Source(key) => {},
                        NodeKind::Derived(id) => {
                            assert(dependency == derived_dependency(id, since));
                        },
                    }
                }
            }
            match changed {
                Err(e) => {
                    return (
                        Err(e),
                        Ghost(
                            if asked {
                                Some((first_mid, first_outcome))
                            } else {
                                None
                            },
                        ),
                    );
                },
                Ok(true) => {
                    return (
                        Ok(true),
                        Ghost(
                            if asked {
                                Some((first_mid, first_outcome))
                            } else {
                                None
                            },
                        ),
                    );
                },
                Ok(false) => {},
            }
        }
        proof {
            assert forall|j: int| 0 <= j < i implies db@.dependency_settled(
                #[trigger] dependencies@[j],
                depth as nat,
            ) by {
                db@.lemma_settled_carries(before, dependencies@[j], depth as nat);
            }
        }
        i = i + 1;
    }
    proof {
        if recorded_at(db@.derived[node_id], db@.epoch) {
            db@.lemma_recorded_now_is_fresh(node_id, depth as nat);
        }
    }
    (
        Ok(false),
        Ghost(
            if asked {
                Some((first_mid, first_outcome))
            } else {
                None
            },
        ),
    )
}

/// The memoized call of `node_id` as `memo` makes it, but following stored
/// dependencies no more than `depth` levels deep: where a dependency at that
/// depth would have to be verified the call ends with `TooDeep`, before any
/// user function has run on its account.
pub fn memo_within<S, P, R, F>(
    db: &mut Database<S, P, R>,
    node_id: DerivedNodeId,
    inner_fn: &F,
    depth: u64,
) -> (r: Result<DidRecalculate, EngineError>) where
    R: PartialEq,
    F: Fn(&mut Database<S, P, R>, Key, ParamId) -> Result<R, EngineError>,

    requires
        old(db)@.wf(),
        forall|engine: &mut Database<S, P, R>, function: Key, param: ParamId|
            engine@.wf() && engine@.stack.len() > 0 ==> #[trigger] call_requires(
                inner_fn,
                (engine, function, param),
            ),
        forall|
            engine: &mut Database<S, P, R>,
            function: Key,
            param: ParamId,
            out: Result<R, EngineError>,
        | #[trigger]
            call_ensures(inner_fn, (engine, function, param), out) ==> final(engine)@.wf()
                && final(engine)@.follows(engine@),
    ensures
        memo_settles(old(db)@, final(db)@, node_id, depth as nat, r),
        old(db)@.must_run(node_id) && !old(db)@.busy(node_id) ==> exists|
            engine: &mut Database<S, P, R>,
            out: Result<R, EngineError>,
        |
            {
                &&& engine@ == old(db)@.opened(node_id)
                &&& #[trigger] call_ensures(inner_fn, (engine, node_id.key, node_id.param_id), out)
                &&& run_outcome(old(db)@, final(engine)@, out, final(db)@, r, node_id)
            },
        old(db)@.derived.contains_key(node_id) && old(db)@.verdict_of(node_id) is Asks && depth > 0
            ==> exists|
            first_mid: State<S, P, R>,
            first_outcome: Result<DidRecalculate, EngineError>,
            mid: State<S, P, R>,
            verified: Result<bool, EngineError>,
        |
            #![trigger
                asked_on(
                    first_mid,
                    answer(first_outcome),
                    old(db)@.derived[node_id].dependencies@,
                    old(db)@.stops_at(old(db)@.derived[node_id].dependencies@, 0) + 1,
                    mid,
                    verified,
                )]
            {
                let dependencies = old(db)@.derived[node_id].dependencies@;
                let place = old(db)@.stops_at(dependencies, 0);
                let asked = dependencies[place].node_to->Derived_0;
                let since = dependencies[place].time_verified_or_updated;
                &&& 0 <= place < dependencies.len()
                &&& dependencies[place].node_to is Derived
                &&& memo_settles(old(db)@.marked(node_id), first_mid, asked, (depth - 1) as nat, first_outcome)
                &&& old(db)@.must_run(asked) && !old(db)@.marked(node_id).busy(asked) ==> exists|
                    engine: &mut Database<S, P, R>,
                    made: Result<R, EngineError>,
                |
                    {
                        &&& engine@ == old(db)@.marked(node_id).opened(asked)
                        &&& #[trigger] call_ensures(
                            inner_fn,
                            (engine, asked.key, asked.param_id),
                            made,
                        )
                        &&& run_outcome(
                            old(db)@.marked(node_id),
                            final(engine)@,
                            made,
                            first_mid,
                            first_outcome,
                            asked,
                        )
                    }
                &&& asked_on(
                    first_mid,
                    answer(first_outcome),
                    dependencies,
                    place + 1,
                    mid,
                    verified,
                )
                &&& decided(
                    first_mid,
                    answer(first_outcome),
                    dependencies,
                    place + 1,
                ) ==> {
                    &&& concluded(mid.unmarked(), verified, final(db)@, r, node_id)
                    &&& verified == Ok::<bool, EngineError>(true) && !mid.unmarked().busy(node_id)
                        ==> exists|engine: &mut Database<S, P, R>, made: Result<R, EngineError>|
                        {
                            &&& engine@ == mid.unmarked().opened(node_id)
                            &&& #[trigger] call_ensures(
                                inner_fn,
                                (engine, node_id.key, node_id.param_id),
                                made,
                            )
                            &&& run_outcome(
                                mid.unmarked(),
                                final(engine)@,
                                made,
                                final(db)@,
                                r,
                                node_id,
                            )
                        }
                }
            },
        match r {
            Ok(did) => did == DidRecalculate::Recalculated ==> exists|
                mid: State<S, P, R>,
                engine: &mut Database<S, P, R>,
                made: Result<R, EngineError>,
            |
                {
                    &&& mid.follows(old(db)@)
                    &&& engine@ == mid.opened(node_id)
                    &&& call_ensures(inner_fn, (engine, node_id.key, node_id.param_id), made)
                    &&& #[trigger] run_outcome(mid, final(engine)@, made, final(db)@, r, node_id)
                },
            Err(e) => {
                ||| exists|engine: &mut Database<S, P, R>, function: Key, param: ParamId|
                    #[trigger] call_ensures(
                        inner_fn,
                        (engine, function, param),
                        Err::<R, EngineError>(e),
                    )
                ||| e == EngineError::SourceNotFound && old(db)@.derived.contains_key(node_id) && (
                old(db)@.verdict_of(node_id) is Missing || old(db)@.verdict_of(node_id) is Asks)
                ||| e == EngineError::TooDeep && old(db)@.derived.contains_key(node_id) && old(db)@.verdict_of(node_id) is Asks
                ||| e == EngineError::Cycle && old(db)@.must_run(node_id) && old(db)@.busy(node_id)
                ||| e == EngineError::Cycle && old(db)@.derived.contains_key(node_id) && old(db)@.verdict_of(node_id) is Asks
            },
        },
    decreases depth, 2nat,
{
    let current_epoch = db.current_epoch();
    let existed = db.contains_derived(node_id);
    let ghost mut asked = Ok::<bool, EngineError>(true);
    let changed = if existed {
        db.mark_verifying(node_id);
        let ghost marked = db@;
        proof {
            assert(marked.verifying.last() == node_id);
            old(db)@.lemma_verdict_same_tables(marked, old(db)@.derived[node_id].dependencies@, 0);
            assert(marked.verdict_of(node_id) == old(db)@.verdict_of(node_id));
            assert forall|k: nat| marked.fresh(node_id, k) == #[trigger] old(db)@.fresh(
                node_id,
                k,
            ) by {
                old(db)@.lemma_fresh_same_tables(marked, node_id, k);
            }
        }
        let (answered, first) = any_dependency_changed(
            db,
            node_id,
            current_epoch,
            inner_fn,
            depth,
        );
        let ghost asking_ended = db@;
        db.unmark_verifying();
        proof {
            asked = answered;
            assert(old(db)@.marked(node_id).verifying.drop_last() =~= old(db)@.verifying);
            assert(old(db)@.marked(node_id).unmarked() == old(db)@);
            db@.lemma_follows_across_mark(asking_ended, old(db)@, node_id);
            asking_ended.lemma_fresh_same_tables(db@, node_id, depth as nat);
            assert(same_content(db@.derived[node_id], old(db)@.derived[node_id]));
            if old(db)@.verdict_of(node_id) is Asks && depth > 0 {
                let dependencies = old(db)@.derived[node_id].dependencies@;
                let place = old(db)@.stops_at(dependencies, 0);
                let first_mid = first@->Some_0.0;
                let first_outcome = first@->Some_0.1;
                let first_asked = dependencies[place].node_to->Derived_0;
                assert(marked.derived[node_id].dependencies@ == dependencies);
                assert(marked.stops_at(dependencies, 0) == place);
                if old(db)@.derived.contains_key(first_asked) {
                    old(db)@.lemma_verdict_same_tables(
                        marked,
                        old(db)@.derived[first_asked].dependencies@,
                        0,
                    );
                }
                assert(marked.must_run(first_asked) == old(db)@.must_run(first_asked));
                assert(memo_settles(
                    old(db)@.marked(node_id),
                    first_mid,
                    dependencies[place].node_to->Derived_0,
                    (depth - 1) as nat,
                    first_outcome,
                ));
                assert(asked_on(
                    first_mid,
                    answer(first_outcome),
                    dependencies,
                    place + 1,
                    asking_ended,
                    answered,
                ));
                assert(asking_ended.unmarked() == db@);
            }
        }
        match answered {
            Ok(changed) => changed,
            Err(e) => {
                assert(concluded(db@, asked, db@, Err::<DidRecalculate, EngineError>(e), node_id));
                return Err(e);
            },
        }
    } else {
        proof {
            db@.lemma_follows_reflexive();
        }
        true
    };
    let ghost verified = db@;
    assert(asked == Ok::<bool, EngineError>(changed));
    let (time_updated, did_recalculate) = if changed {
        if db.is_busy(node_id) {
            assert(concluded(
                verified,
                asked,
                db@,
                Err::<DidRecalculate, EngineError>(EngineError::Cycle),
                node_id,
            ));
            return Err(EngineError::Cycle);
        }
        let (outcome, dependencies, time_updated) = call_inner_fn_and_collect_dependencies(
            db,
            node_id.key,
            node_id.param_id,
            inner_fn,
        );
        let ghost ran = db@;
        let ghost witness = choose|engine: &mut Database<S, P, R>|
            {
                &&& engine@ == verified.opened(node_id)
                &&& #[trigger] call_ensures(
                    inner_fn,
                    (engine, node_id.key, node_id.param_id),
                    outcome,
                )
                &&& dependencies@ == edges(final(engine)@.stack.last())
                &&& time_updated == latest_update(final(engine)@.stack.last())
                &&& ran == final(engine)@.closed()
            };
        let ghost ended = final(witness)@;
        proof {
            assert(witness@ == verified.opened(node_id));
            assert(call_ensures(inner_fn, (witness, node_id.key, node_id.param_id), outcome));
            assert(ended.follows(verified.opened(node_id)));
            assert(ran == ended.closed());
            assert(ended.untouched(verified.opened(node_id), node_id)) by {
                assert(verified.opened(node_id).running.last() == node_id);
                assert(verified.opened(node_id).running.contains(node_id));
            }
            ran.lemma_follows_transitive(verified, old(db)@);
        }
        let value = match outcome {
            Ok(value) => value,
            Err(e) => {
                proof {
                    assert(run_outcome(
                        verified,
                        ended,
                        outcome,
                        db@,
                        Err::<DidRecalculate, EngineError>(e),
                        node_id,
                    ));
                    assert(concluded(
                        verified,
                        asked,
                        db@,
                        Err::<DidRecalculate, EngineError>(e),
                        node_id,
                    ));
                    if old(db)@.must_run(node_id) {
                        assert(verified == old(db)@);
                    }
                }
                return Err(e);
            },
        };
        let ghost value_made = value;
        let stored = if existed {
            db.take_derived(node_id)
        } else {
            None
        };
        let ghost taken = stored;
        let (node, did) = match stored {
            Some(mut node) => {
                let did = refresh_node(&mut node, value, dependencies, time_updated, current_epoch);
                (node, did)
            },
            None => (
                DerivedNode {
                    time_verified: current_epoch,
                    time_updated,
                    dependencies,
                    inner_fn: node_id.key,
                    value,
                },
                DidRecalculate::Recalculated,
            ),
        };
        let installed = node.time_updated;
        db.put_derived(node_id, node);
        proof {
            assert(db@.derived =~= ran.derived.insert(node_id, node));
            assert(db@ == (State { derived: ran.derived.insert(node_id, node), ..ran }));
            db@.lemma_follows_after_install(ran, old(db)@, node_id);
            db@.lemma_recorded_now_is_fresh(node_id, depth as nat);
        }
        let ghost put = db@;
        register_dependency_in_parent_memoized_fn(
            db,
            NodeKind::Derived(node_id),
            installed,
            current_epoch,
        );
        proof {
            db@.lemma_follows_transitive(put, old(db)@);
            assert(db@.derived == put.derived);
            assert(db@.derived[node_id] == node);
            assert(db@ == ran.installed(node_id, node));
            if existed {
                assert(verified.derived.contains_key(node_id));
                assert(taken == Some(ran.derived[node_id]));
                assert(same_content(ran.derived[node_id], verified.derived[node_id]));
                if R::obeys_eq_spec() {
                    assert(node == refreshed(
                        verified.derived[node_id],
                        value_made,
                        node.dependencies,
                        latest_update(ended.stack.last()),
                        verified.epoch,
                    ));
                }
            } else {
                assert(verified == old(db)@);
            }
            assert(run_outcome(
                verified,
                ended,
                outcome,
                db@,
                Ok::<DidRecalculate, EngineError>(did),
                node_id,
            ));
            assert(concluded(verified, asked, db@, Ok::<DidRecalculate, EngineError>(did), node_id));
            if old(db)@.must_run(node_id) {
                assert(verified == old(db)@);
            }
        }
        return Ok(did);
    } else {
        let installed = match db.derived_node(node_id) {
            Some(node) => node.time_updated,
            None => Epoch::new(),
        };
        db.mark_verified(node_id);
        proof {
            db@.lemma_follows_after_touch(verified, node_id);
            db@.lemma_follows_transitive(verified, old(db)@);
        }
        (installed, DidRecalculate::ReusedMemoizedValue)
    };
    let ghost settled = db@;
    register_dependency_in_parent_memoized_fn(
        db,
        NodeKind::Derived(node_id),
        time_updated,
        current_epoch,
    );
    proof {
        db@.lemma_follows_transitive(settled, old(db)@);
        assert(db@ == verified.confirmed(node_id));
        assert(same_content(verified.derived[node_id], old(db)@.derived[node_id]));
        assert(db@.derived[node_id].value == old(db)@.derived[node_id].value);
        assert(db@.derived[node_id].time_updated == old(db)@.derived[node_id].time_updated);
        assert(db@.fresh(node_id, depth as nat));
        if old(db)@.verdict_of(node_id) is Unchanged {
            assert(verified == old(db)@);
        }
        assert(concluded(
            verified,
            asked,
            db@,
            Ok::<DidRecalculate, EngineError>(did_recalculate),
            node_id,
        ));
    }
    Ok(did_recalculate)
}

/// The memoized call of the function `node_id.key` on the parameters
/// `node_id.param_id`.
///
/// Where no node is stored under `node_id`, `inner_fn` runs under a frame of
/// its own and its value is installed with the dependencies that it recorded.
/// Where one is stored, its dependencies that were not recorded at the
/// current epoch are verified in their order; if none has changed the node is
/// confirmed and its value reused, and otherwise `inner_fn` runs again, and a
/// value equal to the stored one still counts as reused. Either way the call
/// is recorded in the frame of the calling user function. The value is then
/// to be had from `Database::derived_node`.
///
/// `inner_fn` stands for all the user functions of the engine: it is handed
/// the key of the function to run and the handle of its parameters. It must
/// be callable on every sound engine in which a frame is open, and all it may
/// do to the engine is what reads, interning and memoized calls do
/// (`State::follows`): it stores and removes no source. An error that it
/// returns ends the call; nothing is installed then, and its frame is
/// dropped.
///
/// A node that is up to date (`State::fresh`) is reused, and no user function
/// runs on its account; a node that the call leaves behind is up to date.
/// While a stored node asks its dependencies it is marked (`State::marked`),
/// and while its user function runs it is counted as running; a function
/// that would have to run while its call is under way in either manner ends
/// the call with `Cycle`, and so the node of a call under way is never
/// touched by the calls inside it.
///
/// The contract has four parts. `memo_settles` is what holds whatever the
/// user functions do. For a node that has to run at once (`State::must_run`)
/// the second clause names the engine that `inner_fn` was handed and says by
/// `run_outcome` what is installed after the run. For a stored node whose
/// first dependency to ask is a derived node the third clause says the same
/// of the memoized call of that node, which starts in the state in which the
/// stored node is marked, then by `asked_on` how the asking goes on and by
/// `concluded` and `run_outcome` how the call ends, once the mark is off; of
/// a second derived node that has to be asked it says no more than
/// `memo_settles` does. The last clause names, for each error, what causes
/// it.
pub fn memo<S, P, R, F>(db: &mut Database<S, P, R>, node_id: DerivedNodeId, inner_fn: &F) -> (r:
    Result<DidRecalculate, EngineError>) where
    R: PartialEq,
    F: Fn(&mut Database<S, P, R>, Key, ParamId) -> Result<R, EngineError>,

    requires
        old(db)@.wf(),
        forall|engine: &mut Database<S, P, R>, function: Key, param: ParamId|
            engine@.wf() && engine@.stack.len() > 0 ==> #[trigger] call_requires(
                inner_fn,
                (engine, function, param),
            ),
        forall|
            engine: &mut Database<S, P, R>,
            function: Key,
            param: ParamId,
            out: Result<R, EngineError>,
        | #[trigger]
            call_ensures(inner_fn, (engine, function, param), out) ==> final(engine)@.wf()
                && final(engine)@.follows(engine@),
    ensures
        memo_settles(old(db)@, final(db)@, node_id, MAX_DEPTH as nat, r),
        old(db)@.must_run(node_id) && !old(db)@.busy(node_id) ==> exists|
            engine: &mut Database<S, P, R>,
            out: Result<R, EngineError>,
        |
            {
                &&& engine@ == old(db)@.opened(node_id)
                &&& #[trigger] call_ensures(inner_fn, (engine, node_id.key, node_id.param_id), out)
                &&& run_outcome(old(db)@, final(engine)@, out, final(db)@, r, node_id)
            },
        old(db)@.derived.contains_key(node_id) && old(db)@.verdict_of(node_id) is Asks && MAX_DEPTH > 0
            ==> exists|
            first_mid: State<S, P, R>,
            first_outcome: Result<DidRecalculate, EngineError>,
            mid: State<S, P, R>,
            verified: Result<bool, EngineError>,
        |
            #![trigger
                asked_on(
                    first_mid,
                    answer(first_outcome),
                    old(db)@.derived[node_id].dependencies@,
                    old(db)@.stops_at(old(db)@.derived[node_id].dependencies@, 0) + 1,
                    mid,
                    verified,
                )]
            {
                let dependencies = old(db)@.derived[node_id].dependencies@;
                let place = old(db)@.stops_at(dependencies, 0);
                let asked = dependencies[place].node_to->Derived_0;
                let since = dependencies[place].time_verified_or_updated;
                &&& 0 <= place < dependencies.len()
                &&& dependencies[place].node_to is Derived
                &&& memo_settles(old(db)@.marked(node_id), first_mid, asked, (MAX_DEPTH - 1) as nat, first_outcome)
                &&& old(db)@.must_run(asked) && !old(db)@.marked(node_id).busy(asked) ==> exists|
                    engine: &mut Database<S, P, R>,
                    made: Result<R, EngineError>,
                |
                    {
                        &&& engine@ == old(db)@.marked(node_id).opened(asked)
                        &&& #[trigger] call_ensures(
                            inner_fn,
                            (engine, asked.key, asked.param_id),
                            made,
                        )
                        &&& run_outcome(
                            old(db)@.marked(node_id),
                            final(engine)@,
                            made,
                            first_mid,
                            first_outcome,
                            asked,
                        )
                    }
                &&& asked_on(
                    first_mid,
                    answer(first_outcome),
                    dependencies,
                    place + 1,
                    mid,
                    verified,
                )
                &&& decided(
                    first_mid,
                    answer(first_outcome),
                    dependencies,
                    place + 1,
                ) ==> {
                    &&& concluded(mid.unmarked(), verified, final(db)@, r, node_id)
                    &&& verified == Ok::<bool, EngineError>(true) && !mid.unmarked().busy(node_id)
                        ==> exists|engine: &mut Database<S, P, R>, made: Result<R, EngineError>|
                        {
                            &&& engine@ == mid.unmarked().opened(node_id)
                            &&& #[trigger] call_ensures(
                                inner_fn,
                                (engine, node_id.key, node_id.param_id),
                                made,
                            )
                            &&& run_outcome(
                                mid.unmarked(),
                                final(engine)@,
                                made,
                                final(db)@,
                                r,
                                node_id,
                            )
                        }
                }
            },
        match r {
            Ok(did) => did == DidRecalculate::Recalculated ==> exists|
                mid: State<S, P, R>,
                engine: &mut Database<S, P, R>,
                made: Result<R, EngineError>,
            |
                {
                    &&& mid.follows(old(db)@)
                    &&& engine@ == mid.opened(node_id)
                    &&& call_ensures(inner_fn, (engine, node_id.key, node_id.param_id), made)
                    &&& #[trigger] run_outcome(mid, final(engine)@, made, final(db)@, r, node_id)
                },
            Err(e) => {
                ||| exists|engine: &mut Database<S, P, R>, function: Key, param: ParamId|
                    #[trigger] call_ensures(
                        inner_fn,
                        (engine, function, param),
                        Err::<R, EngineError>(e),
                    )
                ||| e == EngineError::SourceNotFound && old(db)@.derived.contains_key(node_id) && (
                old(db)@.verdict_of(node_id) is Missing || old(db)@.verdict_of(node_id) is Asks)
                ||| e == EngineError::TooDeep && old(db)@.derived.contains_key(node_id) && old(db)@.verdict_of(node_id) is Asks
                ||| e == EngineError::Cycle && old(db)@.must_run(node_id) && old(db)@.busy(node_id)
                ||| e == EngineError::Cycle && old(db)@.derived.contains_key(node_id) && old(db)@.verdict_of(node_id) is Asks
            },
        },
{
    memo_within(db, node_id, inner_fn, MAX_DEPTH)
}

} // verus!
