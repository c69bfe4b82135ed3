use crate::epoch::Epoch;
use crate::key::{Key, ParamId};
use crate::memo::{derived_dependency, edges, latest_recorded, latest_update, refreshed};
use crate::node::{Dependency, DerivedNodeId, NodeKind};
use crate::state::{entry_wf, first_equal, same_content, FrameEntry, State};
use vstd::prelude::*;
use vstd::std_specs::cmp::PartialEqSpec;

verus! {

/// Storing a source advances the epoch by exactly one tick when the key is
/// new or the value differs from the stored one, and leaves the engine as it
/// is when the value equals the stored one.
pub proof fn lemma_set_advances_exactly_on_change<S: PartialEq, P, R>(
    state: State<S, P, R>,
    key: Key,
    value: S,
)
    requires
        state.epoch.0 < u64::MAX,
    ensures
        state.set_is_noop(key, value) ==> state.after_set(key, value) == state,
        !state.set_is_noop(key, value) ==> state.after_set(key, value).epoch.0 == state.epoch.0 + 1
            && state.after_set(key, value).sources[key].time_updated == state.after_set(
            key,
            value,
        ).epoch,
{
}

/// Removing a source advances the epoch by exactly one tick, whether or not
/// the source was there.
pub proof fn lemma_remove_advances<S, P, R>(state: State<S, P, R>, key: Key)
    requires
        state.epoch.0 < u64::MAX,
    ensures
        state.after_remove(key).epoch.0 == state.epoch.0 + 1,
        !state.after_remove(key).sources.contains_key(key),
{
}

/// Reads, interning and memoized calls do not advance the epoch, and do not
/// touch a source.
pub proof fn lemma_reads_keep_the_epoch<S, P, R>(post: State<S, P, R>, pre: State<S, P, R>)
    requires
        post.follows(pre),
    ensures
        post.epoch == pre.epoch,
        post.sources == pre.sources,
{
}

/// In a sound engine no derived node was last verified before its value last
/// changed.
pub proof fn lemma_verified_not_before_updated<S, P, R>(state: State<S, P, R>, id: DerivedNodeId)
    requires
        state.wf(),
        state.derived.contains_key(id),
    ensures
        state.derived[id].time_verified.0 >= state.derived[id].time_updated.0,
        state.derived[id].time_verified.0 <= state.epoch.0,
{
}

/// The latest time of update among the entries of a frame is at least each
/// entry's own.
pub proof fn lemma_latest_update_covers(entries: Seq<FrameEntry>, i: int)
    requires
        0 <= i < entries.len(),
    ensures
        latest_update(entries).0 >= entries[i].0.0,
    decreases entries.len(),
{
    if i < entries.len() - 1 {
        lemma_latest_update_covers(entries.drop_last(), i);
    }
}

/// In a sound frame no callee's value has changed after the callee was
/// recorded, so the latest time of update is not after the latest time at
/// which a dependency was recorded.
pub proof fn lemma_latest_update_not_after_recorded(entries: Seq<FrameEntry>, now: Epoch)
    requires
        forall|j: int| 0 <= j < entries.len() ==> entry_wf(#[trigger] entries[j], now),
    ensures
        latest_update(entries).0 <= latest_recorded(edges(entries)).0,
    decreases entries.len(),
{
    if entries.len() > 0 {
        let front = entries.drop_last();
        assert forall|j: int| 0 <= j < front.len() implies entry_wf(#[trigger] front[j], now) by {
            assert(front[j] == entries[j]);
        }
        lemma_latest_update_not_after_recorded(front, now);
        assert(edges(entries).drop_last() =~= edges(front));
        assert(edges(entries).last() == entries.last().1);
        assert(entry_wf(entries[entries.len() - 1], now));
    }
}

/// The time at which a newly computed value counts as updated equals the
/// latest time at which one of its dependencies was recorded, wherever one of
/// the callees last changed at that very time; without dependencies both are
/// the first epoch. (A callee that was recorded later than it last changed
/// makes the time of update the earlier of the two.)
pub proof fn lemma_time_updated_is_latest_recorded(entries: Seq<FrameEntry>, now: Epoch)
    requires
        forall|j: int| 0 <= j < entries.len() ==> entry_wf(#[trigger] entries[j], now),
        entries.len() > 0 ==> exists|i: int|
            0 <= i < entries.len() && (#[trigger] entries[i]).0 == latest_recorded(edges(entries)),
    ensures
        latest_update(entries) == latest_recorded(edges(entries)),
{
    if entries.len() > 0 {
        let i = choose|i: int|
            0 <= i < entries.len() && (#[trigger] entries[i]).0 == latest_recorded(edges(entries));
        lemma_latest_update_covers(entries, i);
        lemma_latest_update_not_after_recorded(entries, now);
    } else {
        assert(edges(entries) =~= Seq::<Dependency>::empty());
    }
}

/// A node that is up to date as far as `depth` levels show is up to date as
/// far as any greater number of levels shows.
pub proof fn lemma_fresh_deeper<S, P, R>(
    state: State<S, P, R>,
    id: DerivedNodeId,
    depth: nat,
    deeper: nat,
)
    requires
        state.fresh(id, depth),
        depth <= deeper,
    ensures
        state.fresh(id, deeper),
    decreases depth,
{
    assert forall|j: int| 0 <= j < state.derived[id].dependencies@.len() implies state.dependency_settled(
        #[trigger] state.derived[id].dependencies@[j],
        deeper,
    ) by {
        let dep = state.derived[id].dependencies@[j];
        assert(state.dependency_settled(dep, depth));
        if dep.time_verified_or_updated != state.epoch {
            match dep.node_to {
                NodeKind::Source(_) => {},
                NodeKind::Derived(d) => {
                    lemma_fresh_deeper(state, d, (depth - 1) as nat, (deeper - 1) as nat);
                },
            }
        }
    }
}

/// A derived node that a memoized call has left up to date stays up to date,
/// with the value it has, as long as no source is stored or removed: reads,
/// interning and memoized calls of whatever node keep it so. A memoized call
/// of a node that is up to date reuses the stored value and runs no user
/// function, as the contract of `memo` says.
pub proof fn lemma_fresh_until_a_source_changes<S, P, R>(
    post: State<S, P, R>,
    pre: State<S, P, R>,
    id: DerivedNodeId,
    depth: nat,
)
    requires
        pre.fresh(id, depth),
        post.follows(pre),
    ensures
        post.fresh(id, depth),
        post.derived[id].value == pre.derived[id].value,
        post.derived[id].time_updated == pre.derived[id].time_updated,
{
}

/// Where reads and memoized calls have run no user function, the derived
/// nodes are those that were stored before, each with the value, the time of
/// update and the dependencies that it had: only the times of verification
/// may have moved.
pub proof fn lemma_quiet_run_changes_no_node<S, P, R>(
    post: State<S, P, R>,
    pre: State<S, P, R>,
    id: DerivedNodeId,
)
    requires
        post.follows(pre),
        post.executions == pre.executions,
    ensures
        post.derived.contains_key(id) == pre.derived.contains_key(id),
        pre.derived.contains_key(id) ==> same_content(post.derived[id], pre.derived[id]),
{
}

/// A chain of dependencies that is reconfirmed stays as it is, whatever the
/// epoch has come to: where a node `c` depends on a node `b` alone, `b`
/// depends on `a` alone, `a` has not changed since `b` recorded it and the
/// value of `b` has not changed since `c` recorded it, `c` is up to date, so
/// that a memoized call of `c` runs neither the function of `c` nor that of
/// `b`.
pub proof fn lemma_reconfirmed_chain_is_fresh<S, P, R>(
    state: State<S, P, R>,
    a: Dependency,
    b: DerivedNodeId,
    c: DerivedNodeId,
    since: Epoch,
)
    requires
        state.derived.contains_key(b),
        state.derived[b].dependencies@ == seq![a],
        state.derived.contains_key(c),
        state.derived[c].dependencies@ == seq![derived_dependency(b, since)],
        state.interned(b.param_id),
        state.dependency_unchanged(a, 1),
        state.derived[b].time_updated.0 <= since.0,
    ensures
        state.fresh(b, 1),
        state.fresh(c, 2),
{
    assert(state.fresh(b, 1));
    assert(state.dependency_unchanged(derived_dependency(b, since), 2));
}

/// The early cut: where the user function of a stored node runs again and
/// returns a value equal to the stored one, the node keeps the time of its
/// last change, so that a dependency on it that was recorded at or after that
/// time has still not changed, and the nodes that depend on it are spared.
pub proof fn lemma_early_cut_spares_dependents<S, P, R: PartialEq>(
    state: State<S, P, R>,
    id: DerivedNodeId,
    value: R,
    dependencies: Vec<Dependency>,
    time_updated: Epoch,
    since: Epoch,
)
    requires
        state.derived.contains_key(id),
        state.interned(id.param_id),
        state.derived[id].value.eq_spec(&value),
        state.derived[id].time_updated.0 <= since.0,
        forall|j: int|
            0 <= j < dependencies@.len() ==> (#[trigger] dependencies@[j]).time_verified_or_updated
                == state.epoch,
    ensures
        ({
            let node = refreshed(
                state.derived[id],
                value,
                dependencies,
                time_updated,
                state.epoch,
            );
            let after = State { derived: state.derived.insert(id, node), ..state };
            &&& node.time_updated == state.derived[id].time_updated
            &&& node.value == state.derived[id].value
            &&& after.dependency_unchanged(derived_dependency(id, since), 1)
        }),
{
    let node = refreshed(state.derived[id], value, dependencies, time_updated, state.epoch);
    let after = State { derived: state.derived.insert(id, node), ..state };
    after.lemma_recorded_now_is_fresh(id, 0);
}

/// The first place at which a tuple equal to `wanted` stands lies between
/// `from` and the number of tuples; no tuple before it, from `from` on,
/// equals `wanted`, and the tuple at it does.
pub proof fn lemma_first_equal<P: PartialEq>(items: Seq<P>, wanted: P, from: int)
    requires
        0 <= from <= items.len(),
    ensures
        from <= first_equal(items, wanted, from) <= items.len(),
        forall|i: int|
            from <= i < first_equal(items, wanted, from) ==> !(#[trigger] items[i]).eq_spec(&wanted),
        first_equal(items, wanted, from) < items.len() ==> items[first_equal(
            items,
            wanted,
            from,
        )].eq_spec(&wanted),
    decreases items.len() - from,
{
    if from < items.len() && !items[from].eq_spec(&wanted) {
        lemma_first_equal(items, wanted, from + 1);
    }
}

/// The first place of a tuple is the one before which no tuple equals it.
pub proof fn lemma_first_equal_is<P: PartialEq>(items: Seq<P>, wanted: P, from: int, place: int)
    requires
        0 <= from <= place <= items.len(),
        forall|i: int| from <= i < place ==> !(#[trigger] items[i]).eq_spec(&wanted),
        place < items.len() ==> items[place].eq_spec(&wanted),
    ensures
        first_equal(items, wanted, from) == place,
    decreases items.len() - from,
{
    if from < place {
        assert(!items[from].eq_spec(&wanted));
        lemma_first_equal_is(items, wanted, from + 1, place);
    }
}

/// Interning is stable: a tuple that equals itself is interned under one
/// handle however often it is interned, and only the first interning stores
/// anything.
pub proof fn lemma_intern_is_stable<S, P: PartialEq, R>(state: State<S, P, R>, param: P)
    requires
        param.eq_spec(&param),
    ensures
        ({
            let once = state.after_intern(param);
            &&& once.position_of(param) == state.position_of(param)
            &&& once.interned(ParamId(state.position_of(param) as u64))
            &&& once.after_intern(param) == once
        }),
{
    let once = state.after_intern(param);
    let place = state.position_of(param);
    lemma_first_equal(state.params, param, 0);
    if place == state.params.len() {
        assert forall|i: int| 0 <= i < place implies !(#[trigger] once.params[i]).eq_spec(&param) by {
            assert(once.params[i] == state.params[i]);
        }
        lemma_first_equal_is(once.params, param, 0, place);
    }
}

/// Two tuples that were interned under one handle both equal the tuple that
/// is stored under it.
pub proof fn lemma_one_handle_one_tuple<S, P: PartialEq, R>(
    state: State<S, P, R>,
    one: P,
    other: P,
)
    requires
        state.position_of(one) == state.position_of(other),
        state.position_of(one) < state.params.len(),
    ensures
        state.params[state.position_of(one)].eq_spec(&one),
        state.params[state.position_of(one)].eq_spec(&other),
{
    lemma_first_equal(state.params, one, 0);
    lemma_first_equal(state.params, other, 0);
}

} // verus!
