//! Checks, at submission, of the acceleration structure actions that an
//! encoder recorded.  Each build action takes the next build command index:
//! the structures it builds are marked built with that index (and a BLAS's
//! compaction state goes back to idle), and each TLAS it builds remembers its
//! BLAS dependencies.  Each use of a TLAS requires the TLAS to be built and
//! each of its dependencies to be built, no later than the TLAS, and alive.

use vstd::prelude::*;
use crate::acceleration_structure::{
    AsAction, Blas, BlasCompactState, ResourceIdent, Tlas, TlasBuild, ValidateAsActionsError,
};
use crate::global::Global;
use crate::resource::{Registry, ResourceKind, Slot};

verus! {

/// What submission tracks of every acceleration structure that the hub holds.
#[verifier::ext_equal]
pub struct AsTracking {
    pub blas_built: Map<usize, Option<u64>>,
    pub blas_compacted: Map<usize, BlasCompactState>,
    pub tlas_built: Map<usize, Option<u64>>,
    pub tlas_dependencies: Map<usize, Seq<usize>>,
}

/// The build index of each BLAS held in `blas_s`.
pub open spec fn blas_built_map(blas_s: Registry<Blas>) -> Map<usize, Option<u64>> {
    Map::new(|i: usize| blas_s.holds(i), |i: usize| blas_s.data(i).built_index)
}

/// The tracking state held in the BLAS and TLAS registries.
pub open spec fn tracking_of(blas_s: Registry<Blas>, tlas_s: Registry<Tlas>) -> AsTracking {
    AsTracking {
        blas_built: blas_built_map(blas_s),
        blas_compacted: blas_compacted_map(blas_s),
        tlas_built: Map::new(|i: usize| tlas_s.holds(i), |i: usize| tlas_s.data(i).built_index),
        tlas_dependencies: Map::new(|i: usize| tlas_s.holds(i), |i: usize| tlas_s.data(i).dependencies@),
    }
}

impl Global {
    /// The tracking state of the hub's acceleration structures.
    pub open spec fn as_tracking(&self) -> AsTracking {
        tracking_of(self.blas_s, self.tlas_s)
    }
}

/// The tracking after the build with index `idx` built the BLASes
/// `blas_ids`: each has that build index and is no longer being compacted.
pub open spec fn blas_builds_applied(t: AsTracking, blas_ids: Seq<usize>, idx: u64) -> AsTracking {
    AsTracking {
        blas_built: Map::new(
            |i: usize| t.blas_built.dom().contains(i),
            |i: usize|
                if blas_ids.contains(i) {
                    Some(idx)
                } else {
                    t.blas_built[i]
                },
        ),
        blas_compacted: Map::new(
            |i: usize| t.blas_compacted.dom().contains(i),
            |i: usize|
                if blas_ids.contains(i) {
                    BlasCompactState::Idle
                } else {
                    t.blas_compacted[i]
                },
        ),
        ..t
    }
}

/// The first of `deps` that has no build index.
pub open spec fn first_unbuilt(built: Map<usize, Option<u64>>, deps: Seq<usize>) -> Option<usize>
    decreases deps.len(),
{
    if deps.len() == 0 {
        None
    } else if built[deps[0]] is None {
        Some(deps[0])
    } else {
        first_unbuilt(built, deps.drop_first())
    }
}

/// Applies the TLAS builds `builds` of the build with index `idx`, in
/// order: each needs all its dependencies built, and then takes the index
/// and its dependencies.  Stops at the first TLAS with an unbuilt dependency.
pub open spec fn tlas_builds_applied(t: AsTracking, builds: Seq<TlasBuild>, idx: u64) -> (AsTracking, Result<
    (),
    ValidateAsActionsError,
>)
    decreases builds.len(),
{
    if builds.len() == 0 {
        (t, Ok(()))
    } else {
        let (t1, r) = tlas_builds_applied(t, builds.drop_last(), idx);
        if r is Err {
            (t1, r)
        } else {
            let b = builds.last();
            match first_unbuilt(t1.blas_built, b.dependencies@) {
                Some(blas) => (
                    t1,
                    Err(ValidateAsActionsError::UsedUnbuiltBlas(
                        ResourceIdent { kind: ResourceKind::Blas, id: blas },
                        ResourceIdent { kind: ResourceKind::Tlas, id: b.tlas },
                    )),
                ),
                None => (
                    AsTracking {
                        tlas_built: t1.tlas_built.insert(b.tlas, Some(idx)),
                        tlas_dependencies: t1.tlas_dependencies.insert(b.tlas, b.dependencies@),
                        ..t1
                    },
                    Ok(()),
                ),
            }
        }
    }
}

/// Checks the dependencies `deps` of TLAS `tlas`, built with index
/// `tlas_idx`, in order: each must be built, no later than the TLAS, and
/// not destroyed.
pub open spec fn tlas_dependencies_check(
    g: Global,
    t: AsTracking,
    tlas: usize,
    tlas_idx: u64,
    deps: Seq<usize>,
) -> Result<(), ValidateAsActionsError>
    decreases deps.len(),
{
    if deps.len() == 0 {
        Ok(())
    } else {
        let b = deps[0];
        match t.blas_built[b] {
            None => Err(ValidateAsActionsError::UsedUnbuiltBlas(
                ResourceIdent { kind: ResourceKind::Tlas, id: tlas },
                ResourceIdent { kind: ResourceKind::Blas, id: b },
            )),
            Some(bi) => if bi > tlas_idx {
                Err(ValidateAsActionsError::BlasNewerThenTlas { blas: b, tlas })
            } else if g.blas_s.data(b).destroyed {
                Err(ValidateAsActionsError::DestroyedResource { kind: ResourceKind::Blas, id: b })
            } else {
                tlas_dependencies_check(g, t, tlas, tlas_idx, deps.drop_first())
            },
        }
    }
}

/// Checks a use of TLAS `tlas`: it must be built, and so must its dependencies.
pub open spec fn use_tlas_check(g: Global, t: AsTracking, tlas: usize) -> Result<(), ValidateAsActionsError> {
    match t.tlas_built[tlas] {
        None => Err(ValidateAsActionsError::UsedUnbuiltTlas { tlas }),
        Some(ti) => tlas_dependencies_check(g, t, tlas, ti, t.tlas_dependencies[tlas]),
    }
}

/// One action: the tracking after it, the next build index, and its result.
pub open spec fn as_action_step(g: Global, t: AsTracking, a: AsAction, next: u64) -> (AsTracking, u64, Result<
    (),
    ValidateAsActionsError,
>) {
    match a {
        AsAction::Build(b) => {
            let t1 = blas_builds_applied(t, b.blas_s_built@, next);
            let (t2, r) = tlas_builds_applied(t1, b.tlas_s_built@, next);
            (t2, (next + 1) as u64, r)
        },
        AsAction::UseTlas(tlas) => (t, next, use_tlas_check(g, t, tlas)),
    }
}

/// The actions `actions` in order from tracking `t` and next build index
/// `next`, stopping at the first error; the effects of the actions before it
/// remain.
pub open spec fn as_actions_run(g: Global, t: AsTracking, actions: Seq<AsAction>, next: u64) -> (AsTracking, u64, Result<
    (),
    ValidateAsActionsError,
>)
    decreases actions.len(),
{
    if actions.len() == 0 {
        (t, next, Ok(()))
    } else {
        let (t1, n1, r) = as_actions_run(g, t, actions.drop_last(), next);
        if r is Err {
            (t1, n1, r)
        } else {
            as_action_step(g, t1, actions.last(), n1)
        }
    }
}

/// The number of build actions in `actions`.
pub open spec fn build_count(actions: Seq<AsAction>) -> nat
    decreases actions.len(),
{
    if actions.len() == 0 {
        0
    } else {
        build_count(actions.drop_last()) + if actions.last() is Build {
            1nat
        } else {
            0nat
        }
    }
}

/// `a` and `b` differ at most in the tracking state of acceleration structures.
pub open spec fn same_except_tracking(a: Global, b: Global) -> bool {
    &&& a.devices == b.devices
    &&& a.command_buffers == b.command_buffers
    &&& a.buffers == b.buffers
    &&& a.query_sets == b.query_sets
    &&& a.bind_group_layouts == b.bind_group_layouts
    &&& a.bind_groups == b.bind_groups
    &&& a.pipeline_layouts == b.pipeline_layouts
    &&& a.compute_pipelines == b.compute_pipelines
    &&& a.ray_tracing_pipelines == b.ray_tracing_pipelines
    &&& a.shader_modules == b.shader_modules
    &&& a.pipeline_caches == b.pipeline_caches
    &&& a.blas_s.slots@.len() == b.blas_s.slots@.len()
    &&& forall|i: int|
        0 <= i < a.blas_s.slots@.len() ==> {
            let (x, y) = (#[trigger] a.blas_s.slots@[i], b.blas_s.slots@[i]);
            &&& x.registered == y.registered
            &&& x.resource is Some <==> y.resource is Some
            &&& x.resource is Some ==> y.resource->0 == Blas {
                built_index: y.resource->0.built_index,
                compacted_state: y.resource->0.compacted_state,
                ..x.resource->0
            }
        }
    &&& a.tlas_s.slots@.len() == b.tlas_s.slots@.len()
    &&& forall|i: int|
        0 <= i < a.tlas_s.slots@.len() ==> {
            let (x, y) = (#[trigger] a.tlas_s.slots@[i], b.tlas_s.slots@[i]);
            &&& x.registered == y.registered
            &&& x.resource is Some <==> y.resource is Some
            &&& x.resource is Some ==> y.resource->0 == Tlas {
                built_index: y.resource->0.built_index,
                dependencies: y.resource->0.dependencies,
                ..x.resource->0
            }
        }
}

/// Every acceleration structure that an action names is held, and no BLAS
/// that a build action names has been compacted.
pub open spec fn as_actions_held(g: Global, actions: Seq<AsAction>) -> bool {
    forall|k: int|
        0 <= k < actions.len() ==> match #[trigger] actions[k] {
            AsAction::Build(b) => {
                &&& forall|j: int|
                    0 <= j < b.blas_s_built@.len() ==> g.blas_s.holds(#[trigger] b.blas_s_built@[j])
                        && g.blas_s.data(b.blas_s_built@[j]).compacted_state != BlasCompactState::Compacted
                &&& forall|j: int|
                    0 <= j < b.tlas_s_built@.len() ==> {
                        let tb = #[trigger] b.tlas_s_built@[j];
                        &&& g.tlas_s.holds(tb.tlas)
                        &&& forall|d: int| 0 <= d < tb.dependencies@.len() ==> g.blas_s.holds(#[trigger] tb.dependencies@[d])
                    }
            },
            AsAction::UseTlas(tlas) => g.tlas_s.holds(tlas),
        }
}

/// Every dependency that the tracking records is a held BLAS.
pub open spec fn tracked_dependencies_held(t: AsTracking) -> bool {
    forall|i: usize|
        #[trigger] t.tlas_dependencies.dom().contains(i) ==> forall|d: int|
            0 <= d < t.tlas_dependencies[i].len() ==> t.blas_built.dom().contains(#[trigger] t.tlas_dependencies[i][d])
}


/// Marks BLAS `id` built by the build with index `idx`, resetting its
/// compaction state.
fn mark_blas_built(blas_s: &mut Registry<Blas>, id: usize, idx: u64)
    requires
        old(blas_s).holds(id),
        old(blas_s).data(id).compacted_state != BlasCompactState::Compacted,
    ensures
        final(blas_s).slots@ == old(blas_s).slots@.update(
            id as int,
            Slot {
                resource: Some(
                    Blas {
                        built_index: Some(idx),
                        compacted_state: BlasCompactState::Idle,
                        ..old(blas_s).data(id)
                    },
                ),
                registered: old(blas_s).slots@[id as int].registered,
            },
        ),
{
    let slot = blas_s.slots.remove(id);
    let Slot { resource, registered } = slot;
    let b = resource.unwrap();
    let Blas {
        device,
        sizes,
        flags,
        handle,
        build_scratch_size,
        built_index: _,
        compacted_state: _,
        destroyed,
        label,
        update_mode,
        compaction_buffer_size,
    } = b;
    let nb = Blas {
        device,
        sizes,
        flags,
        handle,
        build_scratch_size,
        built_index: Some(idx),
        compacted_state: BlasCompactState::Idle,
        destroyed,
        label,
        update_mode,
        compaction_buffer_size,
    };
    blas_s.slots.insert(id, Slot { resource: Some(nb), registered });
    assert(blas_s.slots@ =~= old(blas_s).slots@.update(
        id as int,
        Slot {
            resource: Some(
                Blas { built_index: Some(idx), compacted_state: BlasCompactState::Idle, ..old(blas_s).data(id) },
            ),
            registered: old(blas_s).slots@[id as int].registered,
        },
    ));
}

/// The compaction state of each BLAS held in `blas_s`.
pub open spec fn blas_compacted_map(blas_s: Registry<Blas>) -> Map<usize, BlasCompactState> {
    Map::new(|i: usize| blas_s.holds(i), |i: usize| blas_s.data(i).compacted_state)
}

/// Marks every BLAS of `ids` built by the build with index `idx`.
fn apply_blas_builds(blas_s: &mut Registry<Blas>, ids: &Vec<usize>, idx: u64)
    requires
        forall|j: int| 0 <= j < ids@.len() ==> old(blas_s).holds(#[trigger] ids@[j])
            && old(blas_s).data(ids@[j]).compacted_state != BlasCompactState::Compacted,
    ensures
        final(blas_s).slots@.len() == old(blas_s).slots@.len(),
        forall|i: int|
            0 <= i < old(blas_s).slots@.len() ==> {
                let (x, y) = (#[trigger] old(blas_s).slots@[i], final(blas_s).slots@[i]);
                &&& y.registered == x.registered
                &&& (x.resource is Some <==> y.resource is Some)
                &&& x.resource is Some ==> y.resource->0 == if ids@.contains(i as usize) {
                    Blas { built_index: Some(idx), compacted_state: BlasCompactState::Idle, ..x.resource->0 }
                } else {
                    x.resource->0
                }
            },
        blas_built_map(*final(blas_s)) =~= Map::new(
            |i: usize| old(blas_s).holds(i),
            |i: usize|
                if ids@.contains(i) {
                    Some(idx)
                } else {
                    old(blas_s).data(i).built_index
                },
        ),
        blas_compacted_map(*final(blas_s)) =~= Map::new(
            |i: usize| old(blas_s).holds(i),
            |i: usize|
                if ids@.contains(i) {
                    BlasCompactState::Idle
                } else {
                    old(blas_s).data(i).compacted_state
                },
        ),
{
    let mut k: usize = 0;
    while k < ids.len()
        invariant
            k <= ids@.len(),
            forall|j: int| 0 <= j < ids@.len() ==> old(blas_s).holds(#[trigger] ids@[j])
                && old(blas_s).data(ids@[j]).compacted_state != BlasCompactState::Compacted,
            blas_s.slots@.len() == old(blas_s).slots@.len(),
            forall|i: int|
                0 <= i < old(blas_s).slots@.len() ==> {
                    let (x, y) = (#[trigger] old(blas_s).slots@[i], blas_s.slots@[i]);
                    &&& y.registered == x.registered
                    &&& (x.resource is Some <==> y.resource is Some)
                    &&& x.resource is Some ==> y.resource->0 == if ids@.take(k as int).contains(i as usize) {
                        Blas { built_index: Some(idx), compacted_state: BlasCompactState::Idle, ..x.resource->0 }
                    } else {
                        x.resource->0
                    }
                },
        decreases ids@.len() - k,
    {
        let id = ids[k];
        assert(old(blas_s).holds(id));
        mark_blas_built(blas_s, id, idx);
        proof {
            assert forall|i: int| 0 <= i < old(blas_s).slots@.len() implies ({
                let (x, y) = (#[trigger] old(blas_s).slots@[i], blas_s.slots@[i]);
                &&& y.registered == x.registered
                &&& (x.resource is Some <==> y.resource is Some)
                &&& x.resource is Some ==> y.resource->0 == if ids@.take(k as int + 1).contains(i as usize) {
                    Blas { built_index: Some(idx), compacted_state: BlasCompactState::Idle, ..x.resource->0 }
                } else {
                    x.resource->0
                }
            }) by {
                let (pre, post) = (ids@.take(k as int), ids@.take(k as int + 1));
                assert(post[k as int] == id);
                if i == id as int {
                    assert(post.contains(id));
                } else {
                    if pre.contains(i as usize) {
                        let j = choose|j: int| 0 <= j < pre.len() && pre[j] == i as usize;
                        assert(post[j] == i as usize);
                    }
                    if post.contains(i as usize) {
                        assert(old(blas_s).slots@.len() == old(blas_s).slots.len());
                        let j = choose|j: int| 0 <= j < post.len() && post[j] == i as usize;
                        assert(j != k as int);
                        assert(pre[j] == i as usize);
                    }
                }
            }
        }
        k = k + 1;
    }
    assert(ids@.take(ids@.len() as int) =~= ids@);
    proof {
        assert forall|i: usize| #[trigger] blas_s.holds(i) <==> old(blas_s).holds(i) by {
            if i < old(blas_s).slots@.len() {
                let x = old(blas_s).slots@[i as int];
            }
        }
    }
}

/// Returns a copy of `ids`.
pub(crate) fn copy_ids(ids: &Vec<usize>) -> (r: Vec<usize>)
    ensures
        r@ == ids@,
{
    let mut r: Vec<usize> = Vec::new();
    let mut i: usize = 0;
    while i < ids.len()
        invariant
            i <= ids@.len(),
            r@ == ids@.take(i as int),
        decreases ids@.len() - i,
    {
        r.push(ids[i]);
        i = i + 1;
        assert(r@ =~= ids@.take(i as int));
    }
    assert(ids@.take(ids@.len() as int) =~= ids@);
    r
}

/// Marks TLAS `id` built by the build with index `idx`, depending on `deps`.
fn mark_tlas_built(tlas_s: &mut Registry<Tlas>, id: usize, idx: u64, deps: &Vec<usize>)
    requires
        old(tlas_s).holds(id),
    ensures
        final(tlas_s).slots@.len() == old(tlas_s).slots@.len(),
        forall|i: int| 0 <= i < old(tlas_s).slots@.len() && i != id ==> final(tlas_s).slots@[i] == old(tlas_s).slots@[i],
        final(tlas_s).slots@[id as int].registered == old(tlas_s).slots@[id as int].registered,
        final(tlas_s).slots@[id as int].resource is Some,
        final(tlas_s).data(id) == (Tlas {
            built_index: Some(idx),
            dependencies: final(tlas_s).data(id).dependencies,
            ..old(tlas_s).data(id)
        }),
        final(tlas_s).data(id).dependencies@ == deps@,
{
    let slot = tlas_s.slots.remove(id);
    let Slot { resource, registered } = slot;
    let t = resource.unwrap();
    let Tlas {
        device,
        flags,
        build_scratch_size,
        max_instance_count,
        built_index: _,
        dependencies: _,
        destroyed,
        label,
        update_mode,
        instance_buffer_size,
    } = t;
    let nt = Tlas {
        device,
        flags,
        build_scratch_size,
        max_instance_count,
        built_index: Some(idx),
        dependencies: copy_ids(deps),
        destroyed,
        label,
        update_mode,
        instance_buffer_size,
    };
    tlas_s.slots.insert(id, Slot { resource: Some(nt), registered });
    proof {
        assert forall|i: int| 0 <= i < old(tlas_s).slots@.len() && i != id implies tlas_s.slots@[i] == old(tlas_s).slots@[i] by {}
    }
}

/// Applies the TLAS builds `builds` of the build with index `idx` (see
/// `tlas_builds_applied`).
fn apply_tlas_builds(blas_s: &Registry<Blas>, tlas_s: &mut Registry<Tlas>, builds: &Vec<TlasBuild>, idx: u64) -> (r: Result<
    (),
    ValidateAsActionsError,
>)
    requires
        forall|j: int|
            0 <= j < builds@.len() ==> {
                let tb = #[trigger] builds@[j];
                &&& old(tlas_s).holds(tb.tlas)
                &&& forall|d: int| 0 <= d < tb.dependencies@.len() ==> blas_s.holds(#[trigger] tb.dependencies@[d])
            },
    ensures
        final(tlas_s).slots@.len() == old(tlas_s).slots@.len(),
        forall|i: int|
            0 <= i < old(tlas_s).slots@.len() ==> {
                let (x, y) = (#[trigger] old(tlas_s).slots@[i], final(tlas_s).slots@[i]);
                &&& y.registered == x.registered
                &&& (x.resource is Some <==> y.resource is Some)
                &&& x.resource is Some ==> y.resource->0 == Tlas {
                    built_index: y.resource->0.built_index,
                    dependencies: y.resource->0.dependencies,
                    ..x.resource->0
                }
            },
        ({
            let (t, res) = tlas_builds_applied(tracking_of(*blas_s, *old(tlas_s)), builds@, idx);
            &&& tracking_of(*blas_s, *final(tlas_s)) =~= t
            &&& r == res
        }),
{
    let ghost t0 = tracking_of(*blas_s, *old(tlas_s));
    let mut k: usize = 0;
    assert(builds@.take(0) =~= Seq::<TlasBuild>::empty());
    while k < builds.len()
        invariant
            k <= builds@.len(),
            t0 == tracking_of(*blas_s, *old(tlas_s)),
            forall|j: int|
                0 <= j < builds@.len() ==> {
                    let tb = #[trigger] builds@[j];
                    &&& old(tlas_s).holds(tb.tlas)
                    &&& forall|d: int| 0 <= d < tb.dependencies@.len() ==> blas_s.holds(#[trigger] tb.dependencies@[d])
                },
            tlas_s.slots@.len() == old(tlas_s).slots@.len(),
            forall|i: int|
                0 <= i < old(tlas_s).slots@.len() ==> {
                    let (x, y) = (#[trigger] old(tlas_s).slots@[i], tlas_s.slots@[i]);
                    &&& y.registered == x.registered
                    &&& (x.resource is Some <==> y.resource is Some)
                    &&& x.resource is Some ==> y.resource->0 == Tlas {
                        built_index: y.resource->0.built_index,
                        dependencies: y.resource->0.dependencies,
                        ..x.resource->0
                    }
                },
            ({
                let (t, res) = tlas_builds_applied(t0, builds@.take(k as int), idx);
                &&& tracking_of(*blas_s, *tlas_s) =~= t
                &&& res is Ok
            }),
        decreases builds@.len() - k,
    {
        let tb = &builds[k];
        assert(builds@.take(k as int + 1).drop_last() =~= builds@.take(k as int));
        assert(builds@.take(k as int + 1).last() == builds@[k as int]);
        let ghost tk = tracking_of(*blas_s, *tlas_s);
        assert(tk.blas_built == blas_built_map(*blas_s));
        match find_unbuilt(blas_s, &tb.dependencies) {
            Some(blas) => {
                proof {
                    lemma_tlas_builds_err_persists(t0, builds@, idx, k as int + 1);
                }
                return Err(ValidateAsActionsError::UsedUnbuiltBlas(
                    ResourceIdent { kind: ResourceKind::Blas, id: blas },
                    ResourceIdent { kind: ResourceKind::Tlas, id: tb.tlas },
                ));
            },
            None => {},
        }
        assert(tlas_s.holds(tb.tlas)) by {
            assert(old(tlas_s).holds(tb.tlas));
            assert(0 <= tb.tlas < old(tlas_s).slots@.len());
        }
        let ghost prev = *tlas_s;
        mark_tlas_built(tlas_s, tb.tlas, idx, &tb.dependencies);
        proof {
            assert(tracking_of(*blas_s, *tlas_s) =~= AsTracking {
                tlas_built: tk.tlas_built.insert(tb.tlas, Some(idx)),
                tlas_dependencies: tk.tlas_dependencies.insert(tb.tlas, tb.dependencies@),
                ..tk
            }) by {
                assert forall|i: usize| #[trigger] tlas_s.holds(i) <==> prev.holds(i) by {}
                assert(tracking_of(*blas_s, *tlas_s).tlas_built =~= tk.tlas_built.insert(tb.tlas, Some(idx)));
                assert(tracking_of(*blas_s, *tlas_s).tlas_dependencies =~= tk.tlas_dependencies.insert(tb.tlas, tb.dependencies@));
            }
        }
        k = k + 1;
    }
    assert(builds@.take(builds@.len() as int) =~= builds@);
    Ok(())
}

/// Applying TLAS builds whose dependencies are tracked BLASes keeps every
/// recorded dependency a tracked BLAS, and changes no BLAS.
proof fn lemma_tlas_builds_keep_deps_held(t: AsTracking, builds: Seq<TlasBuild>, idx: u64)
    requires
        tracked_dependencies_held(t),
        forall|j: int, d: int| 0 <= j < builds.len() && 0 <= d < builds[j].dependencies@.len()
            ==> t.blas_built.dom().contains(#[trigger] builds[j].dependencies@[d]),
    ensures
        tracked_dependencies_held(tlas_builds_applied(t, builds, idx).0),
        tlas_builds_applied(t, builds, idx).0.blas_built == t.blas_built,
    decreases builds.len(),
{
    if builds.len() > 0 {
        assert forall|j: int, d: int| 0 <= j < builds.drop_last().len() && 0 <= d < builds.drop_last()[j].dependencies@.len()
            implies t.blas_built.dom().contains(#[trigger] builds.drop_last()[j].dependencies@[d]) by {
            assert(builds.drop_last()[j] == builds[j]);
        }
        lemma_tlas_builds_keep_deps_held(t, builds.drop_last(), idx);
        let (t1, r) = tlas_builds_applied(t, builds.drop_last(), idx);
        let b = builds.last();
        if r is Ok && first_unbuilt(t1.blas_built, b.dependencies@) is None {
            let t2 = tlas_builds_applied(t, builds, idx).0;
            assert forall|i: usize| #[trigger] t2.tlas_dependencies.dom().contains(i) implies forall|d: int|
                0 <= d < t2.tlas_dependencies[i].len() ==> t2.blas_built.dom().contains(#[trigger] t2.tlas_dependencies[i][d]) by {
                if i == b.tlas {
                    assert forall|d: int| 0 <= d < t2.tlas_dependencies[i].len() implies t2.blas_built.dom().contains(
                        #[trigger] t2.tlas_dependencies[i][d],
                    ) by {
                        assert(b == builds[builds.len() - 1]);
                    }
                } else {
                    assert(t1.tlas_dependencies.dom().contains(i));
                }
            }
        }
    }
}

/// Once a TLAS build of a prefix fails, applying all of them ends with that failure.
proof fn lemma_tlas_builds_err_persists(t: AsTracking, builds: Seq<TlasBuild>, idx: u64, i: int)
    requires
        0 <= i <= builds.len(),
        tlas_builds_applied(t, builds.take(i), idx).1 is Err,
    ensures
        tlas_builds_applied(t, builds, idx) == tlas_builds_applied(t, builds.take(i), idx),
    decreases builds.len() - i,
{
    if i == builds.len() {
        assert(builds.take(i) =~= builds);
    } else {
        assert(builds.take(i + 1).drop_last() =~= builds.take(i));
        lemma_tlas_builds_err_persists(t, builds, idx, i + 1);
    }
}

/// Returns `first_unbuilt(blas_built_map(*blas_s), deps@)`.
fn find_unbuilt(blas_s: &Registry<Blas>, deps: &Vec<usize>) -> (r: Option<usize>)
    requires
        forall|d: int| 0 <= d < deps@.len() ==> blas_s.holds(#[trigger] deps@[d]),
    ensures
        r == first_unbuilt(blas_built_map(*blas_s), deps@),
{
    let ghost m = blas_built_map(*blas_s);
    let mut j: usize = 0;
    assert(deps@.subrange(0, deps@.len() as int) =~= deps@);
    while j < deps.len()
        invariant
            j <= deps@.len(),
            m == blas_built_map(*blas_s),
            forall|d: int| 0 <= d < deps@.len() ==> blas_s.holds(#[trigger] deps@[d]),
            first_unbuilt(m, deps@) == first_unbuilt(m, deps@.subrange(j as int, deps@.len() as int)),
        decreases deps@.len() - j,
    {
        let b = deps[j];
        let ghost rest = deps@.subrange(j as int, deps@.len() as int);
        assert(rest[0] == b);
        assert(m.dom().contains(b));
        if blas_s.resource(b).built_index.is_none() {
            return Some(b);
        }
        assert(rest.drop_first() =~= deps@.subrange(j as int + 1, deps@.len() as int));
        j = j + 1;
    }
    None
}

impl Global {
    /// Returns `tlas_dependencies_check(*self, self.as_tracking(), tlas, tlas_idx, deps@)`.
    fn check_tlas_dependencies(&self, tlas: usize, tlas_idx: u64, deps: &Vec<usize>) -> (r: Result<
        (),
        ValidateAsActionsError,
    >)
        requires
            forall|d: int| 0 <= d < deps@.len() ==> self.blas_s.holds(#[trigger] deps@[d]),
        ensures
            r == tlas_dependencies_check(*self, self.as_tracking(), tlas, tlas_idx, deps@),
    {
        let ghost t = self.as_tracking();
        let mut j: usize = 0;
        assert(deps@.subrange(0, deps@.len() as int) =~= deps@);
        while j < deps.len()
            invariant
                j <= deps@.len(),
                t == self.as_tracking(),
                forall|d: int| 0 <= d < deps@.len() ==> self.blas_s.holds(#[trigger] deps@[d]),
                tlas_dependencies_check(*self, t, tlas, tlas_idx, deps@) == tlas_dependencies_check(
                    *self,
                    t,
                    tlas,
                    tlas_idx,
                    deps@.subrange(j as int, deps@.len() as int),
                ),
            decreases deps@.len() - j,
        {
            let b = deps[j];
            let ghost rest = deps@.subrange(j as int, deps@.len() as int);
            assert(rest[0] == b);
            assert(t.blas_built.dom().contains(b));
            let blas = self.blas_s.resource(b);
            match blas.built_index {
                None => {
                    return Err(ValidateAsActionsError::UsedUnbuiltBlas(
                        ResourceIdent { kind: ResourceKind::Tlas, id: tlas },
                        ResourceIdent { kind: ResourceKind::Blas, id: b },
                    ));
                },
                Some(bi) => {
                    if bi > tlas_idx {
                        return Err(ValidateAsActionsError::BlasNewerThenTlas { blas: b, tlas });
                    }
                    if blas.destroyed {
                        return Err(ValidateAsActionsError::DestroyedResource { kind: ResourceKind::Blas, id: b });
                    }
                },
            }
            assert(rest.drop_first() =~= deps@.subrange(j as int + 1, deps@.len() as int));
            j = j + 1;
        }
        Ok(())
    }

    /// Returns `use_tlas_check(*self, self.as_tracking(), tlas)`.
    fn check_use_tlas(&self, tlas: usize) -> (r: Result<(), ValidateAsActionsError>)
        requires
            self.tlas_s.holds(tlas),
            tracked_dependencies_held(self.as_tracking()),
        ensures
            r == use_tlas_check(*self, self.as_tracking(), tlas),
    {
        let t = self.tlas_s.resource(tlas);
        assert(self.as_tracking().tlas_dependencies.dom().contains(tlas));
        match t.built_index {
            None => Err(ValidateAsActionsError::UsedUnbuiltTlas { tlas }),
            Some(ti) => {
                proof {
                    assert forall|d: int| 0 <= d < t.dependencies@.len() implies self.blas_s.holds(
                        #[trigger] t.dependencies@[d],
                    ) by {
                        assert(self.as_tracking().blas_built.dom().contains(self.as_tracking().tlas_dependencies[tlas][d]));
                    }
                }
                self.check_tlas_dependencies(tlas, ti, &t.dependencies)
            },
        }
    }
}

/// The checks of a TLAS's dependencies read only whether they are destroyed,
/// which the tracking does not change.
proof fn lemma_dependencies_check_same(a: Global, b: Global, t: AsTracking, tlas: usize, ti: u64, deps: Seq<usize>)
    requires
        same_except_tracking(a, b),
        forall|d: int| 0 <= d < deps.len() ==> a.blas_s.holds(#[trigger] deps[d]),
    ensures
        tlas_dependencies_check(a, t, tlas, ti, deps) == tlas_dependencies_check(b, t, tlas, ti, deps),
    decreases deps.len(),
{
    if deps.len() > 0 {
        let x = deps[0];
        assert(a.blas_s.holds(x));
        assert(a.blas_s.data(x).destroyed == b.blas_s.data(x).destroyed) by {
            let i = x as int;
            assert(0 <= i < a.blas_s.slots@.len());
        }
        assert forall|d: int| 0 <= d < deps.drop_first().len() implies a.blas_s.holds(#[trigger] deps.drop_first()[d]) by {
            assert(deps.drop_first()[d] == deps[d + 1]);
        }
        lemma_dependencies_check_same(a, b, t, tlas, ti, deps.drop_first());
    }
}

/// Once a prefix of the actions fails, the whole run ends with that failure.
proof fn lemma_as_run_err_persists(g: Global, t: AsTracking, actions: Seq<AsAction>, next: u64, i: int)
    requires
        0 <= i <= actions.len(),
        as_actions_run(g, t, actions.take(i), next).2 is Err,
    ensures
        as_actions_run(g, t, actions, next) == as_actions_run(g, t, actions.take(i), next),
    decreases actions.len() - i,
{
    if i == actions.len() {
        assert(actions.take(i) =~= actions);
    } else {
        assert(actions.take(i + 1).drop_last() =~= actions.take(i));
        lemma_as_run_err_persists(g, t, actions, next, i + 1);
    }
}

impl Global {
    /// Checks the acceleration structure actions that encoder `cb` recorded,
    /// in order, when its command buffer is submitted (see `as_actions_run`).
    /// Build actions take consecutive build indices from `next_index`.  The
    /// first failing check is returned; the effects of the actions before it
    /// remain.
    pub fn validate_acceleration_structure_actions(&mut self, cb: usize, next_index: &mut u64) -> (r: Result<
        (),
        ValidateAsActionsError,
    >)
        requires
            cb < old(self).command_buffers@.len(),
            as_actions_held(*old(self), old(self).command_buffers@[cb as int].as_actions@),
            tracked_dependencies_held(old(self).as_tracking()),
            *old(next_index) >= 1,
            *old(next_index) + old(self).command_buffers@[cb as int].as_actions@.len() <= u64::MAX,
        ensures
            same_except_tracking(*old(self), *final(self)),
            ({
                let (t, n, res) = as_actions_run(
                    *old(self),
                    old(self).as_tracking(),
                    old(self).command_buffers@[cb as int].as_actions@,
                    *old(next_index),
                );
                &&& final(self).as_tracking() =~= t
                &&& *final(next_index) == n
                &&& r is Ok <==> res is Ok
                &&& r is Err ==> r == res
            }),
    {
        let ghost g0 = *old(self);
        let ghost t0 = old(self).as_tracking();
        let ghost next0 = *old(next_index);
        let n = self.command_buffers[cb].as_actions.len();
        let ghost actions = self.command_buffers@[cb as int].as_actions@;
        let mut i: usize = 0;
        assert(actions.take(0) =~= Seq::<AsAction>::empty());
        while i < n
            invariant
                i <= n,
                n == actions.len(),
                cb < self.command_buffers@.len(),
                actions == self.command_buffers@[cb as int].as_actions@,
                g0 == *old(self),
                t0 == old(self).as_tracking(),
                next0 == *old(next_index),
                next0 + actions.len() <= u64::MAX,
                as_actions_held(g0, actions),
                same_except_tracking(g0, *self),
                tracked_dependencies_held(self.as_tracking()),
                *next_index <= next0 + i,
                forall|x: usize| #[trigger] self.blas_s.holds(x) && self.blas_s.data(x).compacted_state
                    == BlasCompactState::Compacted ==> g0.blas_s.data(x).compacted_state == BlasCompactState::Compacted,
                ({
                    let (t, nx, res) = as_actions_run(g0, t0, actions.take(i as int), next0);
                    &&& self.as_tracking() =~= t
                    &&& *next_index == nx
                    &&& res is Ok
                }),
            decreases n - i,
        {
            let ghost ti = self.as_tracking();
            let ghost nxi = *next_index;
            assert(actions.take(i as int + 1).drop_last() =~= actions.take(i as int));
            assert(actions.take(i as int + 1).last() == actions[i as int]);
            let ghost action = actions[i as int];
            let action_ref = &self.command_buffers[cb].as_actions[i];
            assert(*action_ref == action);
            match action_ref {
                AsAction::UseTlas(tlas) => {
                    let tlas = *tlas;
                    assert(g0.tlas_s.holds(tlas)) by { assert(match actions[i as int] { AsAction::UseTlas(x) => g0.tlas_s.holds(x), _ => true }); }
                    assert(self.tlas_s.holds(tlas)) by {
                        let k = tlas as int;
                        assert(0 <= k < g0.tlas_s.slots@.len());
                    }
                    let r = self.check_use_tlas(tlas);
                    proof {
                        assert(ti.tlas_dependencies.dom().contains(tlas));
                        match ti.tlas_built[tlas] {
                            Some(x) => {
                                let deps = ti.tlas_dependencies[tlas];
                                assert forall|d: int| 0 <= d < deps.len() implies g0.blas_s.holds(#[trigger] deps[d]) by {
                                    assert(ti.blas_built.dom().contains(deps[d]));
                                    let k = deps[d] as int;
                                    assert(0 <= k < g0.blas_s.slots@.len());
                                }
                                lemma_dependencies_check_same(g0, *self, ti, tlas, x, deps);
                            },
                            None => {},
                        }
                        assert(use_tlas_check(g0, ti, tlas) == use_tlas_check(*self, self.as_tracking(), tlas));
                        assert(action == AsAction::UseTlas(tlas));
                    }
                    match r {
                        Ok(()) => {},
                        Err(e) => {
                            proof {
                                lemma_as_run_err_persists(g0, t0, actions, next0, i as int + 1);
                            }
                            return Err(e);
                        },
                    }
                },
                AsAction::Build(b) => {
                    let idx = *next_index;
                    *next_index = *next_index + 1;
                    let ghost held = match actions[i as int] { AsAction::Build(x) => x == *b, _ => false };
                    assert(held);
                    proof {
                        assert forall|j: int| 0 <= j < b.blas_s_built@.len() implies self.blas_s.holds(
                            #[trigger] b.blas_s_built@[j],
                        ) && self.blas_s.data(b.blas_s_built@[j]).compacted_state != BlasCompactState::Compacted by {
                            let x = b.blas_s_built@[j];
                            assert(g0.blas_s.holds(x));
                            assert(0 <= x < g0.blas_s.slots@.len());
                            assert(self.blas_s.holds(x));
                        }
                        assert forall|j: int| 0 <= j < b.tlas_s_built@.len() implies ({
                            let tb = #[trigger] b.tlas_s_built@[j];
                            &&& self.tlas_s.holds(tb.tlas)
                            &&& forall|d: int| 0 <= d < tb.dependencies@.len() ==> self.blas_s.holds(#[trigger] tb.dependencies@[d])
                        }) by {
                            let tb = b.tlas_s_built@[j];
                            assert(g0.tlas_s.holds(tb.tlas));
                            assert(0 <= tb.tlas < g0.tlas_s.slots@.len());
                            assert forall|d: int| 0 <= d < tb.dependencies@.len() implies self.blas_s.holds(#[trigger] tb.dependencies@[d]) by {
                                assert(g0.blas_s.holds(tb.dependencies@[d]));
                                assert(0 <= tb.dependencies@[d] < g0.blas_s.slots@.len());
                            }
                        }
                    }
                    let ghost before = *self;
                    apply_blas_builds(&mut self.blas_s, &b.blas_s_built, idx);
                    let ghost mid = *self;
                    assert(mid.as_tracking() =~= blas_builds_applied(ti, b.blas_s_built@, idx));
                    let r = apply_tlas_builds(&self.blas_s, &mut self.tlas_s, &b.tlas_s_built, idx);
                    proof {
                        assert(same_except_tracking(g0, *self));
                        assert(tracked_dependencies_held(mid.as_tracking()));
                        assert forall|j: int, d: int| 0 <= j < b.tlas_s_built@.len() && 0 <= d < b.tlas_s_built@[j].dependencies@.len()
                            implies mid.as_tracking().blas_built.dom().contains(#[trigger] b.tlas_s_built@[j].dependencies@[d]) by {
                            let tb = b.tlas_s_built@[j];
                            assert(before.blas_s.holds(tb.dependencies@[d]));
                        }
                        lemma_tlas_builds_keep_deps_held(mid.as_tracking(), b.tlas_s_built@, idx);
                        assert forall|x: usize| #[trigger] self.blas_s.holds(x) && self.blas_s.data(x).compacted_state
                            == BlasCompactState::Compacted implies g0.blas_s.data(x).compacted_state == BlasCompactState::Compacted by {
                            assert(before.blas_s.holds(x));
                            let k = x as int;
                            assert(0 <= k < before.blas_s.slots@.len());
                        }
                        assert(as_action_step(g0, ti, action, nxi) == (
                            tlas_builds_applied(mid.as_tracking(), b.tlas_s_built@, idx).0,
                            *next_index,
                            r,
                        ));
                    }
                    match r {
                        Ok(()) => {},
                        Err(e) => {
                            proof {
                                lemma_as_run_err_persists(g0, t0, actions, next0, i as int + 1);
                            }
                            return Err(e);
                        },
                    }
                },
            }
            proof {
                let (tp, np, rp) = as_actions_run(g0, t0, actions.take(i as int), next0);
                assert(ti == tp);
                assert(nxi == np);
                assert(as_actions_run(g0, t0, actions.take(i as int + 1), next0) == as_action_step(g0, ti, action, nxi));
                let (t2, n2, r2) = as_action_step(g0, ti, action, nxi);
                assert(self.as_tracking() =~= t2);
                assert(*next_index == n2);
                assert(r2 is Ok);
            }
            i = i + 1;
        }
        assert(actions.take(n as int) =~= actions);
        Ok(())
    }
}

/// When the checks of `deps` pass, each of them is built no later than
/// `tlas_idx` and is not destroyed.
proof fn lemma_dependencies_check_ok(g: Global, t: AsTracking, tlas: usize, tlas_idx: u64, deps: Seq<usize>)
    requires
        tlas_dependencies_check(g, t, tlas, tlas_idx, deps) is Ok,
    ensures
        forall|d: int|
            0 <= d < deps.len() ==> {
                &&& t.blas_built[#[trigger] deps[d]] is Some
                &&& t.blas_built[deps[d]]->0 <= tlas_idx
                &&& !g.blas_s.data(deps[d]).destroyed
            },
    decreases deps.len(),
{
    if deps.len() > 0 {
        lemma_dependencies_check_ok(g, t, tlas, tlas_idx, deps.drop_first());
        assert forall|d: int| 0 < d < deps.len() implies deps[d] == deps.drop_first()[d - 1] by {}
    }
}

/// A run that succeeds succeeds on every prefix of the actions.
proof fn lemma_as_run_ok_prefix(g: Global, t: AsTracking, actions: Seq<AsAction>, next: u64, i: int)
    requires
        0 <= i <= actions.len(),
        as_actions_run(g, t, actions, next).2 is Ok,
    ensures
        as_actions_run(g, t, actions.take(i), next).2 is Ok,
{
    if as_actions_run(g, t, actions.take(i), next).2 is Err {
        lemma_as_run_err_persists(g, t, actions, next, i);
    }
}

/// Every successful use of a TLAS at submission finds it built, and each of
/// its BLAS dependencies built no later than it and not destroyed.
pub proof fn lemma_validated_tlas_uses_are_built(g: Global, t: AsTracking, actions: Seq<AsAction>, next: u64, k: int)
    requires
        as_actions_run(g, t, actions, next).2 is Ok,
        0 <= k < actions.len(),
        actions[k] is UseTlas,
    ensures
        ({
            let s = as_actions_run(g, t, actions.take(k), next).0;
            let tlas = actions[k]->UseTlas_0;
            &&& s.tlas_built[tlas] is Some
            &&& forall|d: int|
                0 <= d < s.tlas_dependencies[tlas].len() ==> {
                    let b = #[trigger] s.tlas_dependencies[tlas][d];
                    &&& s.blas_built[b] is Some
                    &&& s.blas_built[b]->0 <= s.tlas_built[tlas]->0
                    &&& !g.blas_s.data(b).destroyed
                }
        }),
{
    lemma_as_run_ok_prefix(g, t, actions, next, k);
    lemma_as_run_ok_prefix(g, t, actions, next, k + 1);
    assert(actions.take(k + 1).drop_last() =~= actions.take(k));
    assert(actions.take(k + 1).last() == actions[k]);
    let s = as_actions_run(g, t, actions.take(k), next);
    let tlas = actions[k]->UseTlas_0;
    assert(use_tlas_check(g, s.0, tlas) is Ok);
    lemma_dependencies_check_ok(g, s.0, tlas, s.0.tlas_built[tlas]->0, s.0.tlas_dependencies[tlas]);
}

/// Each build action takes exactly one build index: a successful run
/// advances the next index by the number of build actions.
pub proof fn lemma_validated_build_indices(g: Global, t: AsTracking, actions: Seq<AsAction>, next: u64)
    requires
        as_actions_run(g, t, actions, next).2 is Ok,
        next + actions.len() <= u64::MAX,
    ensures
        as_actions_run(g, t, actions, next).1 == next + build_count(actions),
        build_count(actions) <= actions.len(),
    decreases actions.len(),
{
    if actions.len() > 0 {
        lemma_as_run_ok_prefix(g, t, actions, next, actions.len() - 1);
        assert(actions.take(actions.len() - 1) =~= actions.drop_last());
        lemma_validated_build_indices(g, t, actions.drop_last(), next);
    }
}

/// A successful build action gives each BLAS and TLAS it builds the build
/// index it took, resets the BLASes' compaction and records each TLAS's
/// dependencies.
pub proof fn lemma_validated_build_marks(g: Global, t: AsTracking, actions: Seq<AsAction>, next: u64, k: int)
    requires
        as_actions_run(g, t, actions, next).2 is Ok,
        0 <= k < actions.len(),
        actions[k] is Build,
        forall|j: int|
            0 <= j < actions[k]->Build_0.blas_s_built@.len() ==> as_actions_run(g, t, actions.take(k), next).0.blas_built.dom().contains(
                #[trigger] actions[k]->Build_0.blas_s_built@[j],
            ) && as_actions_run(g, t, actions.take(k), next).0.blas_compacted.dom().contains(actions[k]->Build_0.blas_s_built@[j]),
    ensures
        ({
            let before = as_actions_run(g, t, actions.take(k), next);
            let after = as_actions_run(g, t, actions.take(k + 1), next).0;
            let b = actions[k]->Build_0;
            &&& forall|j: int|
                0 <= j < b.blas_s_built@.len() ==> after.blas_built[#[trigger] b.blas_s_built@[j]] == Some(before.1)
                    && after.blas_compacted[b.blas_s_built@[j]] == BlasCompactState::Idle
            &&& forall|j: int|
                0 <= j < b.tlas_s_built@.len() ==> after.tlas_built[(#[trigger] b.tlas_s_built@[j]).tlas] == Some(before.1)
        }),
{
    lemma_as_run_ok_prefix(g, t, actions, next, k);
    lemma_as_run_ok_prefix(g, t, actions, next, k + 1);
    assert(actions.take(k + 1).drop_last() =~= actions.take(k));
    assert(actions.take(k + 1).last() == actions[k]);
    let before = as_actions_run(g, t, actions.take(k), next);
    let b = actions[k]->Build_0;
    let t1 = blas_builds_applied(before.0, b.blas_s_built@, before.1);
    assert forall|j: int| 0 <= j < b.blas_s_built@.len() implies t1.blas_built[#[trigger] b.blas_s_built@[j]] == Some(before.1)
        && t1.blas_compacted[b.blas_s_built@[j]] == BlasCompactState::Idle by {
        assert(b.blas_s_built@.contains(b.blas_s_built@[j]));
    }
    lemma_tlas_builds_mark(t1, b.tlas_s_built@, before.1);
}

/// Successful TLAS builds keep the BLAS state and give each TLAS the index.
proof fn lemma_tlas_builds_mark(t: AsTracking, builds: Seq<TlasBuild>, idx: u64)
    requires
        tlas_builds_applied(t, builds, idx).1 is Ok,
    ensures
        tlas_builds_applied(t, builds, idx).0.blas_built == t.blas_built,
        tlas_builds_applied(t, builds, idx).0.blas_compacted == t.blas_compacted,
        forall|j: int| 0 <= j < builds.len() ==> tlas_builds_applied(t, builds, idx).0.tlas_built[(#[trigger] builds[j]).tlas] == Some(idx),
    decreases builds.len(),
{
    if builds.len() > 0 {
        lemma_tlas_builds_mark(t, builds.drop_last(), idx);
        let t2 = tlas_builds_applied(t, builds, idx).0;
        assert forall|j: int| 0 <= j < builds.len() implies t2.tlas_built[(#[trigger] builds[j]).tlas] == Some(idx) by {
            if j < builds.len() - 1 {
                assert(builds.drop_last()[j] == builds[j]);
            }
        }
    }
}

/// TLAS builds whose dependencies all carry build index `idx` succeed, and
/// leave each built TLAS with index `idx` and dependencies that carry it.
proof fn lemma_tlas_builds_with_built_deps(t: AsTracking, builds: Seq<TlasBuild>, idx: u64)
    requires
        forall|j: int, d: int| 0 <= j < builds.len() && 0 <= d < builds[j].dependencies@.len()
            ==> t.blas_built[#[trigger] builds[j].dependencies@[d]] == Some(idx),
    ensures
        tlas_builds_applied(t, builds, idx).1 is Ok,
        tlas_builds_applied(t, builds, idx).0.blas_built == t.blas_built,
        forall|j: int|
            0 <= j < builds.len() ==> {
                let r = tlas_builds_applied(t, builds, idx).0;
                let x = (#[trigger] builds[j]).tlas;
                &&& r.tlas_built[x] == Some(idx)
                &&& exists|j2: int| 0 <= j2 < builds.len() && builds[j2].tlas == x && r.tlas_dependencies[x] == (
                #[trigger] builds[j2]).dependencies@
            },
    decreases builds.len(),
{
    if builds.len() > 0 {
        let prev = builds.drop_last();
        assert forall|j: int, d: int| 0 <= j < prev.len() && 0 <= d < prev[j].dependencies@.len()
            implies t.blas_built[#[trigger] prev[j].dependencies@[d]] == Some(idx) by {
            assert(prev[j] == builds[j]);
        }
        lemma_tlas_builds_with_built_deps(t, prev, idx);
        let t1 = tlas_builds_applied(t, prev, idx).0;
        let b = builds.last();
        assert(first_unbuilt(t1.blas_built, b.dependencies@) is None) by {
            lemma_first_unbuilt_none(t1.blas_built, b.dependencies@, idx);
        }
        let r = tlas_builds_applied(t, builds, idx).0;
        assert forall|j: int| 0 <= j < builds.len() implies ({
            let x = (#[trigger] builds[j]).tlas;
            &&& r.tlas_built[x] == Some(idx)
            &&& exists|j2: int| 0 <= j2 < builds.len() && builds[j2].tlas == x && r.tlas_dependencies[x] == (
            #[trigger] builds[j2]).dependencies@
        }) by {
            let x = builds[j].tlas;
            if x != b.tlas {
                assert(prev[j] == builds[j]);
                let j2 = choose|j2: int| 0 <= j2 < prev.len() && prev[j2].tlas == x && t1.tlas_dependencies[x] == (
                #[trigger] prev[j2]).dependencies@;
                assert(prev[j2] == builds[j2]);
            } else {
                assert(builds[builds.len() - 1] == b);
            }
        }
    }
}

/// Dependencies that all carry a build index have no unbuilt one.
proof fn lemma_first_unbuilt_none(built: Map<usize, Option<u64>>, deps: Seq<usize>, idx: u64)
    requires
        forall|d: int| 0 <= d < deps.len() ==> built[#[trigger] deps[d]] == Some(idx),
    ensures
        first_unbuilt(built, deps) is None,
    decreases deps.len(),
{
    if deps.len() > 0 {
        assert forall|d: int| 0 <= d < deps.drop_first().len() implies built[#[trigger] deps.drop_first()[d]] == Some(idx) by {
            assert(deps.drop_first()[d] == deps[d + 1]);
        }
        lemma_first_unbuilt_none(built, deps.drop_first(), idx);
    }
}

/// Dependencies built no later than the TLAS and not destroyed pass its checks.
proof fn lemma_dependencies_check_passes(g: Global, t: AsTracking, tlas: usize, ti: u64, deps: Seq<usize>)
    requires
        forall|d: int|
            0 <= d < deps.len() ==> t.blas_built[#[trigger] deps[d]] is Some && t.blas_built[deps[d]]->0 <= ti
                && !g.blas_s.data(deps[d]).destroyed,
    ensures
        tlas_dependencies_check(g, t, tlas, ti, deps) is Ok,
    decreases deps.len(),
{
    if deps.len() > 0 {
        assert forall|d: int| 0 <= d < deps.drop_first().len() implies t.blas_built[#[trigger] deps.drop_first()[d]] is Some
            && t.blas_built[deps.drop_first()[d]]->0 <= ti && !g.blas_s.data(deps.drop_first()[d]).destroyed by {
            assert(deps.drop_first()[d] == deps[d + 1]);
        }
        lemma_dependencies_check_passes(g, t, tlas, ti, deps.drop_first());
    }
}

/// A TLAS built together with the BLASes its instances refer to can be
/// used: a build action whose TLAS builds depend only on BLASes it also
/// builds, followed by a use of one of those TLASes, passes the checks at
/// submission, as long as those BLASes are not destroyed.
#[verifier::rlimit(30)]
pub proof fn lemma_build_then_use_passes(g: Global, t: AsTracking, b: crate::acceleration_structure::AsBuild, next: u64, k: int)
    requires
        0 <= k < b.tlas_s_built@.len(),
        forall|j: int| 0 <= j < b.blas_s_built@.len() ==> t.blas_built.dom().contains(#[trigger] b.blas_s_built@[j]),
        forall|j: int, d: int| 0 <= j < b.tlas_s_built@.len() && 0 <= d < b.tlas_s_built@[j].dependencies@.len()
            ==> b.blas_s_built@.contains(#[trigger] b.tlas_s_built@[j].dependencies@[d])
                && !g.blas_s.data(b.tlas_s_built@[j].dependencies@[d]).destroyed,
        next < u64::MAX,
    ensures
        as_actions_run(g, t, seq![AsAction::Build(b), AsAction::UseTlas(b.tlas_s_built@[k].tlas)], next).2 is Ok,
{
    let actions = seq![AsAction::Build(b), AsAction::UseTlas(b.tlas_s_built@[k].tlas)];
    let t1 = blas_builds_applied(t, b.blas_s_built@, next);
    let builds = b.tlas_s_built@;
    assert forall|j: int, d: int| 0 <= j < builds.len() && 0 <= d < builds[j].dependencies@.len()
        implies t1.blas_built[#[trigger] builds[j].dependencies@[d]] == Some(next) by {
        let x = builds[j].dependencies@[d];
        assert(b.blas_s_built@.contains(x));
        let i = choose|i: int| 0 <= i < b.blas_s_built@.len() && b.blas_s_built@[i] == x;
        assert(t.blas_built.dom().contains(b.blas_s_built@[i]));
    }
    lemma_tlas_builds_with_built_deps(t1, builds, next);
    let t2 = tlas_builds_applied(t1, builds, next).0;
    let x = builds[k].tlas;
    assert(t2.tlas_built[x] == Some(next));
    let j2 = choose|j2: int| 0 <= j2 < builds.len() && builds[j2].tlas == x && t2.tlas_dependencies[x] == (
    #[trigger] builds[j2]).dependencies@;
    assert forall|d: int| 0 <= d < t2.tlas_dependencies[x].len() implies t2.blas_built[#[trigger] t2.tlas_dependencies[x][d]]
        is Some && t2.blas_built[t2.tlas_dependencies[x][d]]->0 <= next && !g.blas_s.data(t2.tlas_dependencies[x][d]).destroyed by {
        assert(t2.tlas_dependencies[x][d] == builds[j2].dependencies@[d]);
    }
    lemma_dependencies_check_passes(g, t2, x, next, t2.tlas_dependencies[x]);
    assert(use_tlas_check(g, t2, x) is Ok);
    let first = seq![AsAction::Build(b)];
    assert(first.drop_last() =~= Seq::<AsAction>::empty());
    assert(as_actions_run(g, t, Seq::<AsAction>::empty(), next) == (t, next, Ok::<(), ValidateAsActionsError>(())));
    assert(as_action_step(g, t, AsAction::Build(b), next) == (t2, (next + 1) as u64, tlas_builds_applied(t1, builds, next).1));
    assert(as_actions_run(g, t, first, next) == as_action_step(g, t, AsAction::Build(b), next));
    assert(actions.drop_last() =~= first);
    assert(actions.last() == AsAction::UseTlas(x));
    assert(as_actions_run(g, t, actions, next) == as_action_step(g, t2, AsAction::UseTlas(x), (next + 1) as u64));
}

} // verus!
