//! Planning of a Stage batch: every direction is checked in order against
//! the descriptor catalog and rehearsed on a shadow of the actor tree, before
//! anything live is touched.
use vstd::prelude::*;

use crate::actor::{
    actor_direction_effects, directions_effects, directions_error, validate_actor_directions, ActorCapabilities,
    MutationEffects, ObjectId, RegistryError, RegistryLimits, StageDeletionPreflight, StageId, TypeId,
};
use crate::catalog::{
    style_direction_outcome, validate_style_direction, Selector, StyleProperty, StyleRegistry, StyleUpdate,
    TypeDescriptor,
};
use crate::direction::{direction_views, ActorDirection, DirectionView, RuntimeFlag, StageDirection, StageRevision};
use crate::shadow::{applied, copy_ids, final_tree_checked, first_live, push_unique, ShadowModel, TreeShadow};

verus! {

/// One local-style change planned for an actor.
pub type StyleEntry = (ObjectId, Selector, StyleProperty, StyleUpdate);

/// Mathematical model of a [`BatchPlan`].
#[verifier::ext_equal]
pub struct PlanModel {
    /// The rehearsed actor tree.
    pub shadow: ShadowModel,
    /// Actor-local directions grouped per actor, actors in first-touch order.
    pub groups: Seq<(ObjectId, Seq<DirectionView>)>,
    /// Local-style changes in direction order.
    pub styles: Seq<StyleEntry>,
    /// Union of the effects the batch publishes.
    pub effects: u16,
    /// Actors whose own state the batch changes, each once, in first-touch order.
    pub touched: Seq<ObjectId>,
}

/// A validated Stage batch, ready for its actor groups to be prepared by the
/// actors themselves and for commit.
pub struct BatchPlan {
    /// The rehearsed actor tree.
    pub shadow: TreeShadow,
    /// Actor-local directions grouped per actor.
    pub groups: Vec<(ObjectId, Vec<ActorDirection>)>,
    /// Local-style changes in direction order.
    pub styles: Vec<StyleEntry>,
    /// Union of the effects the batch publishes.
    pub effects: MutationEffects,
    /// Actors whose own state the batch changes.
    pub touched: Vec<ObjectId>,
}

impl View for BatchPlan {
    type V = PlanModel;

    open spec fn view(&self) -> PlanModel {
        PlanModel {
            shadow: self.shadow@,
            groups: self.groups@.map_values(|g: (ObjectId, Vec<ActorDirection>)| (g.0, direction_views(g.1@))),
            styles: self.styles@,
            effects: self.effects@,
            touched: self.touched@,
        }
    }
}

/// Index of the first descriptor of type `t`, from `from`.
pub open spec fn catalog_index(catalog: Seq<TypeDescriptor>, t: TypeId, from: int) -> Option<int>
    decreases catalog.len() - from,
{
    if from < 0 || from >= catalog.len() {
        None
    } else if catalog[from].type_id == t {
        Some(from)
    } else {
        catalog_index(catalog, t, from + 1)
    }
}

/// The descriptor of live actor `id`'s type; a type missing from the catalog
/// is an internal error.
pub open spec fn live_descriptor(catalog: Seq<TypeDescriptor>, m: ShadowModel, id: ObjectId) -> Result<TypeDescriptor, RegistryError> {
    match first_live(m.actors, id) {
        None => Err(RegistryError::StaleObject { object_id: id }),
        Some(i) => match catalog_index(catalog, m.actors[i].type_id, 0) {
            None => Err(RegistryError::Internal),
            Some(k) => Ok(catalog[k]),
        },
    }
}

/// Index of the first group of actor `id`, from `from`.
pub open spec fn group_index(groups: Seq<(ObjectId, Seq<DirectionView>)>, id: ObjectId, from: int) -> Option<int>
    decreases groups.len() - from,
{
    if from < 0 || from >= groups.len() {
        None
    } else if groups[from].0 == id {
        Some(from)
    } else {
        group_index(groups, id, from + 1)
    }
}

/// `groups` with `directions` appended to actor `id`'s group, or a new group
/// for `id` at the end.
pub open spec fn grouped(groups: Seq<(ObjectId, Seq<DirectionView>)>, id: ObjectId, directions: Seq<DirectionView>) -> Seq<(ObjectId, Seq<DirectionView>)> {
    match group_index(groups, id, 0) {
        Some(k) => groups.update(k, (id, groups[k].1 + directions)),
        None => groups.push((id, directions)),
    }
}

proof fn lemma_group_index_found(groups: Seq<(ObjectId, Seq<DirectionView>)>, id: ObjectId, from: int)
    requires
        0 <= from,
    ensures
        group_index(groups, id, from) matches Some(k) ==> from <= k < groups.len() && groups[k].0 == id,
    decreases groups.len() - from,
{
    if from < groups.len() {
        lemma_group_index_found(groups, id, from + 1);
    }
}

proof fn lemma_catalog_index_found(catalog: Seq<TypeDescriptor>, t: TypeId, from: int)
    requires
        0 <= from,
    ensures
        catalog_index(catalog, t, from) matches Some(k) ==> from <= k < catalog.len(),
    decreases catalog.len() - from,
{
    if from < catalog.len() {
        lemma_catalog_index_found(catalog, t, from + 1);
    }
}

/// Whether a runtime flag may be set on an actor with `capabilities`: hidden
/// and enabled always; clickable and focusable only on controls.
pub open spec fn flag_allowed(flag: RuntimeFlag, capabilities: ActorCapabilities) -> bool {
    match flag {
        RuntimeFlag::Hidden | RuntimeFlag::Enabled => true,
        RuntimeFlag::Clickable | RuntimeFlag::Focusable => capabilities@ & 8u32 == 8u32,
    }
}

/// `e` with the draw and snapshot effects added.
pub open spec fn with_draw_snapshot(e: u16) -> u16 {
    (e | 1u16) | 16u16
}

/// `e` with the draw, tree, layout and snapshot effects added.
pub open spec fn with_tree_effects(e: u16) -> u16 {
    (((e | 1u16) | 4u16) | 2u16) | 16u16
}

/// The plan after one direction, or why the batch is refused.
#[verifier::opaque]
pub open spec fn plan_step(
    catalog: Seq<TypeDescriptor>,
    registry: StyleRegistry,
    p: PlanModel,
    d: StageDirection,
) -> Result<PlanModel, RegistryError> {
    match d {
        StageDirection::MutateActor { object_id, directions } => if first_live(p.shadow.actors, object_id) is None {
            Err(RegistryError::StaleObject { object_id })
        } else if directions@.len() == 0 {
            Err(RegistryError::BatchInvalid)
        } else {
            match live_descriptor(catalog, p.shadow, object_id) {
                Err(e) => Err(e),
                Ok(desc) => match directions_error(desc.properties@, desc.actions@, directions@, false, 0) {
                    Some(e) => Err(e),
                    None => match directions_effects(desc.properties@, desc.actions@, directions@, directions@.len() as int) {
                        Err(e) => Err(e),
                        Ok(bits) => Ok(PlanModel {
                            effects: p.effects | bits,
                            touched: push_unique(p.touched, object_id),
                            groups: grouped(p.groups, object_id, direction_views(directions@)),
                            ..p
                        }),
                    },
                },
            }
        },
        StageDirection::SetFlag { object_id, flag, .. } => match live_descriptor(catalog, p.shadow, object_id) {
            Err(e) => Err(e),
            Ok(desc) => if !flag_allowed(flag, desc.capabilities) {
                Err(RegistryError::Unsupported)
            } else {
                Ok(PlanModel {
                    effects: if flag is Enabled || flag is Focusable {
                        with_draw_snapshot(p.effects) | 8u16
                    } else {
                        with_draw_snapshot(p.effects)
                    },
                    touched: push_unique(p.touched, object_id),
                    ..p
                })
            },
        },
        StageDirection::SetComputedGeometry { object_id, .. } => if first_live(p.shadow.actors, object_id) is None {
            Err(RegistryError::StaleObject { object_id })
        } else {
            Err(RegistryError::ReadOnly)
        },
        StageDirection::SetLocalStyle { object_id, part_id, state_mask, property_id, value } => match live_descriptor(
            catalog,
            p.shadow,
            object_id,
        ) {
            Err(e) => Err(e),
            Ok(desc) => match style_direction_outcome(
                desc,
                registry.properties@,
                registry.all_states,
                part_id,
                state_mask,
                property_id,
                value,
            ) {
                Err(e) => Err(e),
                Ok((selector, property, update)) => Ok(PlanModel {
                    styles: p.styles.push((object_id, selector, property.storage, update)),
                    effects: p.effects | property.effects@,
                    touched: push_unique(p.touched, object_id),
                    ..p
                }),
            },
        },
        _ => match applied(p.shadow, d) {
            Err(e) => Err(e),
            Ok(s) => Ok(PlanModel { shadow: s, effects: with_tree_effects(p.effects), ..p }),
        },
    }
}

/// The plan after the first `n` directions, or the first refusal.
pub open spec fn plan_prefix(
    catalog: Seq<TypeDescriptor>,
    registry: StyleRegistry,
    start: PlanModel,
    ds: Seq<StageDirection>,
    n: int,
) -> Result<PlanModel, RegistryError>
    decreases n,
{
    if n <= 0 {
        Ok(start)
    } else {
        match plan_prefix(catalog, registry, start, ds, n - 1) {
            Err(e) => Err(e),
            Ok(p) => plan_step(catalog, registry, p, ds[n - 1]),
        }
    }
}

/// The plan of a whole batch rehearsed on `shadow`, or why it is refused: an
/// empty batch is invalid; each direction is checked in order; the final
/// tree must fit `limits`.
pub open spec fn batch_plan(
    catalog: Seq<TypeDescriptor>,
    registry: StyleRegistry,
    limits: RegistryLimits,
    shadow: ShadowModel,
    ds: Seq<StageDirection>,
) -> Result<PlanModel, RegistryError> {
    if ds.len() == 0 {
        Err(RegistryError::BatchInvalid)
    } else {
        let start = PlanModel { shadow, groups: Seq::empty(), styles: Seq::empty(), effects: 0, touched: Seq::empty() };
        match plan_prefix(catalog, registry, start, ds, ds.len() as int) {
            Err(e) => Err(e),
            Ok(p) => match final_tree_checked(p.shadow, limits) {
                Err(e) => Err(e),
                Ok(()) => Ok(p),
            },
        }
    }
}

pub(crate) fn catalog_position(catalog: &[TypeDescriptor], t: TypeId) -> (r: Option<usize>)
    ensures
        r matches Some(k) ==> catalog_index(catalog@, t, 0) == Some(k as int) && k < catalog@.len(),
        r is None ==> catalog_index(catalog@, t, 0) is None,
{
    proof { lemma_catalog_index_found(catalog@, t, 0); }
    let mut k: usize = 0;
    while k < catalog.len()
        invariant
            k <= catalog@.len(),
            catalog_index(catalog@, t, 0) == catalog_index(catalog@, t, k as int),
        decreases catalog@.len() - k,
    {
        if catalog[k].type_id == t {
            return Some(k);
        }
        k = k + 1;
    }
    None
}

/// Catalog position of the descriptor of live actor `object_id`'s type.
pub(crate) fn live_descriptor_position(catalog: &[TypeDescriptor], shadow: &TreeShadow, object_id: ObjectId) -> (r: Result<usize, RegistryError>)
    ensures
        match live_descriptor(catalog@, shadow@, object_id) {
            Ok(d) => r matches Ok(k) && k < catalog@.len() && catalog@[k as int] == d,
            Err(e) => r == Err::<usize, RegistryError>(e),
        },
{
    let actor = match shadow.actor(object_id) {
        Ok(a) => a,
        Err(e) => return Err(e),
    };
    match catalog_position(catalog, actor.type_id) {
        Some(k) => Ok(k),
        None => Err(RegistryError::Internal),
    }
}

impl BatchPlan {
    /// Append `directions` to actor `object_id`'s group, or open a new group.
    pub(crate) fn group(&mut self, object_id: ObjectId, directions: Vec<ActorDirection>)
        ensures
            final(self)@ == (PlanModel { groups: grouped(old(self)@.groups, object_id, direction_views(directions@)), ..old(self)@ }),
    {
        let ghost gs = old(self)@.groups;
        proof { lemma_group_index_found(gs, object_id, 0); }
        let mut k: usize = 0;
        while k < self.groups.len()
            invariant
                self@ == old(self)@,
                gs == old(self)@.groups,
                self.groups@.len() == gs.len(),
                k <= gs.len(),
                group_index(gs, object_id, 0) == group_index(gs, object_id, k as int),
            decreases gs.len() - k,
        {
            if self.groups[k].0 == object_id {
                assert(self@.groups[k as int] == (self.groups@[k as int].0, direction_views(self.groups@[k as int].1@)));
                assert(gs[k as int] == (self.groups@[k as int].0, direction_views(self.groups@[k as int].1@)));
                let ghost before = self.groups@;
                let (id, mut existing) = self.groups.remove(k);
                let ghost old_dirs = existing@;
                let mut added = directions;
                existing.append(&mut added);
                proof {
                    assert(direction_views(existing@) =~= direction_views(old_dirs) + direction_views(directions@));
                }
                self.groups.insert(k, (id, existing));
                proof {
                    assert(self.groups@ =~= before.update(k as int, (id, existing)));
                    assert(self@.groups =~= gs.update(k as int, (object_id, gs[k as int].1 + direction_views(directions@))));
                    assert(self@ =~= PlanModel { groups: grouped(gs, object_id, direction_views(directions@)), ..old(self)@ });
                }
                return;
            }
            k = k + 1;
        }
        let ghost dirs = directions@;
        self.groups.push((object_id, directions));
        proof {
            assert(self@.groups =~= gs.push((object_id, direction_views(dirs))));
            assert(self@ =~= PlanModel { groups: grouped(gs, object_id, direction_views(dirs)), ..old(self)@ });
        }
    }

    /// Record that the batch changes actor `object_id`'s own state.
    pub(crate) fn touch(&mut self, object_id: ObjectId)
        ensures
            final(self)@ == (PlanModel { touched: push_unique(old(self)@.touched, object_id), ..old(self)@ }),
    {
        let mut k: usize = 0;
        while k < self.touched.len()
            invariant
                self@ == old(self)@,
                k <= self.touched@.len(),
                forall|j: int| 0 <= j < k ==> self.touched@[j] != object_id,
            decreases self.touched@.len() - k,
        {
            if self.touched[k] == object_id {
                assert(self.touched@[k as int] == object_id);
                assert(self@ =~= PlanModel { touched: push_unique(old(self)@.touched, object_id), ..old(self)@ });
                return;
            }
            k = k + 1;
        }
        self.touched.push(object_id);
        assert(self@ =~= PlanModel { touched: push_unique(old(self)@.touched, object_id), ..old(self)@ });
    }

    /// Check one direction and fold it into the plan.
    pub(crate) fn step(&mut self, catalog: &[TypeDescriptor], registry: &StyleRegistry, d: StageDirection) -> (r: Result<(), RegistryError>)
        ensures
            match plan_step(catalog@, *registry, old(self)@, d) {
                Ok(m) => r is Ok && final(self)@ == m,
                Err(e) => r == Err::<(), RegistryError>(e),
            },
    {
        reveal(plan_step);
        match d {
            StageDirection::MutateActor { object_id, directions } => {
                if let Err(e) = self.shadow.actor(object_id) {
                    return Err(e);
                }
                if directions.len() == 0 {
                    return Err(RegistryError::BatchInvalid);
                }
                let k = match live_descriptor_position(catalog, &self.shadow, object_id) {
                    Ok(k) => k,
                    Err(e) => return Err(e),
                };
                let desc = &catalog[k];
                if let Err(e) = validate_actor_directions(desc.properties, desc.actions, directions.as_slice()) {
                    return Err(e);
                }
                let effects = match actor_direction_effects(desc.properties, desc.actions, directions.as_slice()) {
                    Ok(e) => e,
                    Err(e) => return Err(e),
                };
                let ghost bits = effects@;
                let ghost dirs = directions@;
                self.effects = self.effects.union(effects);
                self.touch(object_id);
                self.group(object_id, directions);
                assert(self@ == (PlanModel {
                    effects: old(self)@.effects | bits,
                    touched: push_unique(old(self)@.touched, object_id),
                    groups: grouped(old(self)@.groups, object_id, direction_views(dirs)),
                    ..old(self)@
                }));
                Ok(())
            },
            StageDirection::SetFlag { object_id, flag, enabled } => {
                let k = match live_descriptor_position(catalog, &self.shadow, object_id) {
                    Ok(k) => k,
                    Err(e) => return Err(e),
                };
                let allowed = match flag {
                    RuntimeFlag::Hidden | RuntimeFlag::Enabled => true,
                    RuntimeFlag::Clickable | RuntimeFlag::Focusable => catalog[k].capabilities.contains(ActorCapabilities::CONTROL()),
                };
                if !allowed {
                    return Err(RegistryError::Unsupported);
                }
                self.effects = self.effects.union(MutationEffects::DRAW()).union(MutationEffects::SNAPSHOT());
                match flag {
                    RuntimeFlag::Enabled | RuntimeFlag::Focusable => {
                        self.effects = self.effects.union(MutationEffects::FOCUS());
                    },
                    _ => {},
                }
                self.touch(object_id);
                Ok(())
            },
            StageDirection::SetComputedGeometry { object_id, .. } => {
                if let Err(e) = self.shadow.actor(object_id) {
                    return Err(e);
                }
                Err(RegistryError::ReadOnly)
            },
            StageDirection::SetLocalStyle { object_id, part_id, state_mask, property_id, value } => {
                let k = match live_descriptor_position(catalog, &self.shadow, object_id) {
                    Ok(k) => k,
                    Err(e) => return Err(e),
                };
                let (selector, property, update) = match validate_style_direction(
                    &catalog[k],
                    registry,
                    part_id,
                    state_mask,
                    property_id,
                    &value,
                ) {
                    Ok(x) => x,
                    Err(e) => return Err(e),
                };
                self.styles.push((object_id, selector, property.storage, update));
                self.effects = self.effects.union(property.effects);
                self.touch(object_id);
                Ok(())
            },
            other => {
                if let Err(e) = self.shadow.apply(&other) {
                    return Err(e);
                }
                self.effects = self.effects.union(MutationEffects::DRAW()).union(MutationEffects::TREE()).union(
                    MutationEffects::LAYOUT(),
                ).union(MutationEffects::SNAPSHOT());
                Ok(())
            },
        }
    }
}

/// Plan a Stage batch on `shadow`, the tree of the Stage as it stands: the
/// batch must not be empty, each direction is checked in order against the
/// catalog and rehearsed, and the final tree must fit `limits`. Planning
/// reads the catalog, style registry and limits only, so a refused batch
/// leaves the Stage exactly as it was.
pub fn plan_batch(
    catalog: &[TypeDescriptor],
    registry: &StyleRegistry,
    limits: &RegistryLimits,
    shadow: TreeShadow,
    directions: Vec<StageDirection>,
) -> (r: Result<BatchPlan, RegistryError>)
    requires
        limits.max_tree_depth < usize::MAX,
    ensures
        match batch_plan(catalog@, *registry, *limits, shadow@, directions@) {
            Ok(m) => r matches Ok(plan) && plan@ == m,
            Err(e) => r matches Err(x) && x == e,
        },
{
    if directions.len() == 0 {
        return Err(RegistryError::BatchInvalid);
    }
    let ghost all = directions@;
    let ghost start = PlanModel { shadow: shadow@, groups: Seq::empty(), styles: Seq::empty(), effects: 0, touched: Seq::empty() };
    let mut plan = BatchPlan { shadow, groups: Vec::new(), styles: Vec::new(), effects: MutationEffects::NONE(), touched: Vec::new() };
    assert(plan@ =~~= start);
    let mut rest = directions;
    let mut i: usize = 0;
    while rest.len() > 0
        invariant
            limits.max_tree_depth < usize::MAX,
            all == directions@,
            all.len() <= usize::MAX,
            start == (PlanModel { shadow: shadow@, groups: Seq::empty(), styles: Seq::empty(), effects: 0, touched: Seq::empty() }),
            all.len() > 0,
            i <= all.len(),
            rest@ == all.skip(i as int),
            plan_prefix(catalog@, *registry, start, all, i as int) == Ok::<PlanModel, RegistryError>(plan@),
        decreases rest@.len(),
    {
        assert(rest@[0] == all[i as int]);
        assert(rest@.len() == all.len() - i);
        assert(i < all.len());
        let ghost before = plan@;
        let d = rest.remove(0);
        assert(plan_prefix(catalog@, *registry, start, all, i as int + 1) == plan_step(catalog@, *registry, before, d));
        match plan.step(catalog, registry, d) {
            Ok(()) => {},
            Err(e) => {
                proof { lemma_prefix_sticks(catalog@, *registry, start, all, i as int + 1, all.len() as int); }
                return Err(e);
            },
        }
        i = i + 1;
        assert(rest@ =~= all.skip(i as int));
    }
    assert(i == all.len());
    match plan.shadow.validate_final_tree(limits) {
        Ok(()) => Ok(plan),
        Err(e) => Err(e),
    }
}

/// A refusal after `n` directions stays the outcome of every longer prefix.
proof fn lemma_prefix_sticks(
    catalog: Seq<TypeDescriptor>,
    registry: StyleRegistry,
    start: PlanModel,
    ds: Seq<StageDirection>,
    n: int,
    m: int,
)
    requires
        0 <= n <= m,
        plan_prefix(catalog, registry, start, ds, n) is Err,
    ensures
        plan_prefix(catalog, registry, start, ds, m) == plan_prefix(catalog, registry, start, ds, n),
    decreases m - n,
{
    if n < m {
        lemma_prefix_sticks(catalog, registry, start, ds, n, m - 1);
    }
}


/// Validate a batch against the Stage as it stands and report the actors
/// it would delete, in the order the rehearsal retires them, without
/// changing anything: the report of Stage `stage_id` at `starting_revision`
/// lists the deletions of the plan, and a refused batch reports its refusal.
pub fn preflight_batch(
    stage_id: StageId,
    starting_revision: StageRevision,
    catalog: &[TypeDescriptor],
    registry: &StyleRegistry,
    limits: &RegistryLimits,
    shadow: TreeShadow,
    directions: Vec<StageDirection>,
) -> (r: Result<StageDeletionPreflight, RegistryError>)
    requires
        limits.max_tree_depth < usize::MAX,
    ensures
        match batch_plan(catalog@, *registry, *limits, shadow@, directions@) {
            Ok(m) => r matches Ok(p) && p.spec_stage_id() == stage_id && p.spec_starting_revision() == starting_revision
                && p.spec_deleted() == m.shadow.deleted,
            Err(e) => r matches Err(x) && x == e,
        },
{
    match plan_batch(catalog, registry, limits, shadow, directions) {
        Ok(plan) => {
            let deleted = copy_ids(plan.shadow.deleted_object_ids());
            Ok(StageDeletionPreflight::new(stage_id, starting_revision, deleted))
        },
        Err(e) => Err(e),
    }
}

} // verus!
