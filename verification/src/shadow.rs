//! Shadow of the Stage actor tree on which a batch of tree directions is
//! rehearsed before anything is committed.
use vstd::prelude::*;

use crate::actor::{
    object_slot, ActorCapabilities, CapacityKind, ChildPolicy, ObjectId, PlannedSlot, RegistryError, RegistryLimits, TypeId,
};
use crate::asset::str_equal;
use crate::direction::{BatchObjectReference, BatchStageDirection, StageDirection};

verus! {

/// One actor as the shadow tree sees it.
pub struct ShadowActor {
    /// Identifier of the actor.
    pub object_id: ObjectId,
    /// Catalog type of the actor.
    pub type_id: TypeId,
    /// Capabilities its type declares.
    pub capabilities: ActorCapabilities,
    /// Which children its type accepts.
    pub child_policy: ChildPolicy,
    /// Parent actor, or `None` for a named root.
    pub parent: Option<ObjectId>,
    /// Ordered children.
    pub children: Vec<ObjectId>,
    /// Largest number of children held at any point of the rehearsal.
    pub max_children: usize,
    /// Whether the actor is still present (not deleted by the batch).
    pub alive: bool,
}

/// Mathematical model of a [`ShadowActor`].
#[verifier::ext_equal]
pub struct ActorModel {
    pub object_id: ObjectId,
    pub type_id: TypeId,
    pub capabilities: ActorCapabilities,
    pub child_policy: ChildPolicy,
    pub parent: Option<ObjectId>,
    pub children: Seq<ObjectId>,
    pub max_children: nat,
    pub alive: bool,
}

impl View for ShadowActor {
    type V = ActorModel;

    open spec fn view(&self) -> ActorModel {
        ActorModel {
            object_id: self.object_id,
            type_id: self.type_id,
            capabilities: self.capabilities,
            child_policy: self.child_policy,
            parent: self.parent,
            children: self.children@,
            max_children: self.max_children as nat,
            alive: self.alive,
        }
    }
}

/// Mathematical model of a [`TreeShadow`].
#[verifier::ext_equal]
pub struct ShadowModel {
    /// Every actor, in capture order.
    pub actors: Seq<ActorModel>,
    /// Named roots in order.
    pub roots: Seq<(Seq<char>, ObjectId)>,
    /// Deleted actors, each once, in deletion order.
    pub deleted: Seq<ObjectId>,
    /// The actors removed by each delete direction.
    pub groups: Seq<Seq<ObjectId>>,
    /// Largest number of roots held at any point of the rehearsal.
    pub max_roots: nat,
}

/// Where a newly created actor is attached.
pub enum PreparedCreateDestination {
    /// As a new named root.
    Root {
        /// Unique root name.
        name: String,
    },
    /// As the last child of a live actor.
    Child {
        /// Parent actor.
        parent: ObjectId,
    },
}

/// Shadow copy of a Stage's actor tree.
pub struct TreeShadow {
    actors: Vec<ShadowActor>,
    roots: Vec<(String, ObjectId)>,
    deleted_object_ids: Vec<ObjectId>,
    delete_groups: Vec<Vec<ObjectId>>,
    max_roots: usize,
}

impl View for TreeShadow {
    type V = ShadowModel;

    closed spec fn view(&self) -> ShadowModel {
        ShadowModel {
            actors: self.actors@.map_values(|a: ShadowActor| a@),
            roots: self.roots@.map_values(|r: (String, ObjectId)| (r.0@, r.1)),
            deleted: self.deleted_object_ids@,
            groups: self.delete_groups@.map_values(|g: Vec<ObjectId>| g@),
            max_roots: self.max_roots as nat,
        }
    }
}

/// Index of the first live actor with identifier `id`, searching from `start`.
pub open spec fn first_live_from(actors: Seq<ActorModel>, id: ObjectId, start: int) -> Option<int>
    decreases actors.len() - start,
{
    if start < 0 || start >= actors.len() {
        None
    } else if actors[start].object_id == id && actors[start].alive {
        Some(start)
    } else {
        first_live_from(actors, id, start + 1)
    }
}

/// Index of the first live actor with identifier `id`.
pub open spec fn first_live(actors: Seq<ActorModel>, id: ObjectId) -> Option<int> {
    first_live_from(actors, id, 0)
}

/// Index of the first occurrence of `id` in `ids`, searching from `start`.
pub open spec fn position_from(ids: Seq<ObjectId>, id: ObjectId, start: int) -> Option<int>
    decreases ids.len() - start,
{
    if start < 0 || start >= ids.len() {
        None
    } else if ids[start] == id {
        Some(start)
    } else {
        position_from(ids, id, start + 1)
    }
}

/// Index of the first occurrence of `id` in `ids`.
pub open spec fn position(ids: Seq<ObjectId>, id: ObjectId) -> Option<int> {
    position_from(ids, id, 0)
}

/// Index of the first root entry naming actor `id`, searching from `start`.
pub open spec fn root_position_from(roots: Seq<(Seq<char>, ObjectId)>, id: ObjectId, start: int) -> Option<int>
    decreases roots.len() - start,
{
    if start < 0 || start >= roots.len() {
        None
    } else if roots[start].1 == id {
        Some(start)
    } else {
        root_position_from(roots, id, start + 1)
    }
}

/// Index of the first root entry naming actor `id`.
pub open spec fn root_position(roots: Seq<(Seq<char>, ObjectId)>, id: ObjectId) -> Option<int> {
    root_position_from(roots, id, 0)
}

/// A found live actor lies in range, carries the identifier and is live.
pub proof fn lemma_first_live_found(actors: Seq<ActorModel>, id: ObjectId, start: int)
    requires
        0 <= start,
    ensures
        first_live_from(actors, id, start) matches Some(i) ==> start <= i < actors.len()
            && actors[i].object_id == id && actors[i].alive,
    decreases actors.len() - start,
{
    if start < actors.len() {
        lemma_first_live_found(actors, id, start + 1);
    }
}

/// A found position lies in range and holds the identifier.
pub proof fn lemma_position_found(ids: Seq<ObjectId>, id: ObjectId, start: int)
    requires
        0 <= start,
    ensures
        position_from(ids, id, start) matches Some(k) ==> start <= k < ids.len() && ids[k] == id,
    decreases ids.len() - start,
{
    if start < ids.len() {
        lemma_position_found(ids, id, start + 1);
    }
}

/// A found root entry lies in range and names the actor.
pub proof fn lemma_root_position_found(roots: Seq<(Seq<char>, ObjectId)>, id: ObjectId, start: int)
    requires
        0 <= start,
    ensures
        root_position_from(roots, id, start) matches Some(k) ==> start <= k < roots.len() && roots[k].1 == id,
    decreases roots.len() - start,
{
    if start < roots.len() {
        lemma_root_position_found(roots, id, start + 1);
    }
}

/// The model with the actor at `i` replaced.
pub open spec fn with_actor(m: ShadowModel, i: int, a: ActorModel) -> ShadowModel {
    ShadowModel { actors: m.actors.update(i, a), ..m }
}

/// The model with the children of the actor at `i` replaced.
pub open spec fn with_children(m: ShadowModel, i: int, children: Seq<ObjectId>) -> ShadowModel {
    with_actor(m, i, ActorModel { children, ..m.actors[i] })
}

/// The model after the high-water marks take in the current sizes.
pub open spec fn raise_maxima(m: ShadowModel) -> ShadowModel {
    ShadowModel {
        actors: m.actors.map_values(
            |a: ActorModel|
                ActorModel {
                    max_children: if a.children.len() > a.max_children {
                        a.children.len()
                    } else {
                        a.max_children
                    },
                    ..a
                },
        ),
        max_roots: if m.roots.len() > m.max_roots {
            m.roots.len()
        } else {
            m.max_roots
        },
        ..m
    }
}

/// The model after actor `id` is detached from its parent's children or from
/// the root order.
pub open spec fn owner_removed(m: ShadowModel, id: ObjectId) -> Result<ShadowModel, RegistryError> {
    match first_live(m.actors, id) {
        None => Err(RegistryError::StaleObject { object_id: id }),
        Some(i) => match m.actors[i].parent {
            Some(p) => match first_live(m.actors, p) {
                None => Err(RegistryError::StaleObject { object_id: p }),
                Some(pi) => match position(m.actors[pi].children, id) {
                    None => Err(RegistryError::Internal),
                    Some(k) => Ok(with_children(m, pi, m.actors[pi].children.remove(k))),
                },
            },
            None => match root_position(m.roots, id) {
                None => Err(RegistryError::Internal),
                Some(k) => Ok(ShadowModel { roots: m.roots.remove(k), ..m }),
            },
        },
    }
}

/// The model after actor `id` moves to position `index` among its siblings
/// (or among the roots, for a root).
pub open spec fn reordered(m: ShadowModel, id: ObjectId, index: int) -> Result<ShadowModel, RegistryError> {
    match first_live(m.actors, id) {
        None => Err(RegistryError::StaleObject { object_id: id }),
        Some(i) => match m.actors[i].parent {
            Some(p) => match first_live(m.actors, p) {
                None => Err(RegistryError::StaleObject { object_id: p }),
                Some(pi) => match position(m.actors[pi].children, id) {
                    None => Err(RegistryError::Internal),
                    Some(k) => if index > m.actors[pi].children.len() - 1 {
                        Err(RegistryError::Range { field_id: 0 })
                    } else {
                        Ok(with_children(m, pi, m.actors[pi].children.remove(k).insert(index, id)))
                    },
                },
            },
            None => match root_position(m.roots, id) {
                None => Err(RegistryError::Internal),
                Some(k) => if index > m.roots.len() - 1 {
                    Err(RegistryError::Range { field_id: 0 })
                } else {
                    Ok(ShadowModel { roots: m.roots.remove(k).insert(index, m.roots[k]), ..m })
                },
            },
        },
    }
}

/// Whether `policy` admits a child of type `type_id` with `capabilities`.
pub open spec fn policy_allows(policy: ChildPolicy, type_id: TypeId, capabilities: ActorCapabilities) -> bool {
    match policy {
        ChildPolicy::NoChildren => false,
        ChildPolicy::AnyActor => true,
        ChildPolicy::Capability(c) => capabilities@ & c@ == c@,
        ChildPolicy::Explicit(types) => types@.contains(type_id),
    }
}

/// Whether `candidate` lies below `ancestor`, searching at most `fuel` levels
/// of children; a search that runs out of levels is an internal error.
pub open spec fn descends(actors: Seq<ActorModel>, ancestor: ObjectId, candidate: ObjectId, fuel: nat) -> Result<bool, RegistryError>
    decreases fuel, 0int,
{
    if fuel == 0 {
        Err(RegistryError::Internal)
    } else {
        match first_live(actors, ancestor) {
            None => Err(RegistryError::StaleObject { object_id: ancestor }),
            Some(i) => if position(actors[i].children, candidate) is Some {
                Ok(true)
            } else {
                any_descends(actors, actors[i].children, candidate, (fuel - 1) as nat, 0)
            },
        }
    }
}

/// Whether `candidate` lies below one of `kids[from..]`, asked child by child.
pub open spec fn any_descends(actors: Seq<ActorModel>, kids: Seq<ObjectId>, candidate: ObjectId, fuel: nat, from: int) -> Result<bool, RegistryError>
    decreases fuel, kids.len() - from,
{
    if from < 0 || from >= kids.len() {
        Ok(false)
    } else {
        match descends(actors, kids[from], candidate, fuel) {
            Err(e) => Err(e),
            Ok(true) => Ok(true),
            Ok(false) => any_descends(actors, kids, candidate, fuel, from + 1),
        }
    }
}

/// The model with actor `id` (looked up live) given `parent`.
pub open spec fn parent_set(m: ShadowModel, id: ObjectId, parent: Option<ObjectId>) -> Result<ShadowModel, RegistryError> {
    match first_live(m.actors, id) {
        None => Err(RegistryError::StaleObject { object_id: id }),
        Some(j) => Ok(with_actor(m, j, ActorModel { parent, ..m.actors[j] })),
    }
}

/// The model after actor `id` moves under `new_parent` at child position `index`.
pub open spec fn reparented(m: ShadowModel, id: ObjectId, new_parent: ObjectId, index: int) -> Result<ShadowModel, RegistryError> {
    match first_live(m.actors, id) {
        None => Err(RegistryError::StaleObject { object_id: id }),
        Some(oi) => match first_live(m.actors, new_parent) {
            None => Err(RegistryError::StaleObject { object_id: new_parent }),
            Some(pi) => if id == new_parent {
                Err(RegistryError::InvalidParent)
            } else {
                match descends(m.actors, id, new_parent, m.actors.len()) {
                    Err(e) => Err(e),
                    Ok(true) => Err(RegistryError::InvalidParent),
                    Ok(false) => if !policy_allows(m.actors[pi].child_policy, m.actors[oi].type_id, m.actors[oi].capabilities) {
                        Err(RegistryError::InvalidParent)
                    } else {
                        match owner_removed(m, id) {
                            Err(e) => Err(e),
                            Ok(m2) => match first_live(m2.actors, new_parent) {
                                None => Err(RegistryError::StaleObject { object_id: new_parent }),
                                Some(qi) => if index > m2.actors[qi].children.len() {
                                    Err(RegistryError::Range { field_id: 0 })
                                } else {
                                    parent_set(with_children(m2, qi, m2.actors[qi].children.insert(index, id)), id, Some(new_parent))
                                },
                            },
                        }
                    },
                }
            },
        },
    }
}

/// Whether a root other than `id` already carries `name`.
pub open spec fn name_taken(roots: Seq<(Seq<char>, ObjectId)>, name: Seq<char>, id: ObjectId) -> bool {
    exists|k: int| 0 <= k < roots.len() && #[trigger] roots[k].0 == name && roots[k].1 != id
}

/// The model after actor `id` becomes the root `name` at root position `index`.
pub open spec fn promoted(m: ShadowModel, id: ObjectId, name: Seq<char>, index: int) -> Result<ShadowModel, RegistryError> {
    match first_live(m.actors, id) {
        None => Err(RegistryError::StaleObject { object_id: id }),
        Some(oi) => if name.len() == 0 || m.actors[oi].capabilities@ & 1u32 != 1u32 || name_taken(m.roots, name, id) {
            Err(RegistryError::InvalidParent)
        } else {
            match owner_removed(m, id) {
                Err(e) => Err(e),
                Ok(m2) => if index > m2.roots.len() {
                    Err(RegistryError::Range { field_id: 0 })
                } else {
                    parent_set(ShadowModel { roots: m2.roots.insert(index, (name, id)), ..m2 }, id, None)
                },
            }
        },
    }
}

/// `ids` with `id` appended unless already present.
pub open spec fn push_unique(ids: Seq<ObjectId>, id: ObjectId) -> Seq<ObjectId> {
    if ids.contains(id) {
        ids
    } else {
        ids.push(id)
    }
}

/// The model after actor `id` and, first, everything below it (children in
/// order, each subtree before its root) are marked deleted, searching at most
/// `fuel` levels.
pub open spec fn marked_deleted(m: ShadowModel, id: ObjectId, fuel: nat) -> Result<ShadowModel, RegistryError>
    decreases fuel, 0int,
{
    if fuel == 0 {
        Err(RegistryError::Internal)
    } else {
        match first_live(m.actors, id) {
            None => Err(RegistryError::StaleObject { object_id: id }),
            Some(i) => match all_marked(m, m.actors[i].children, (fuel - 1) as nat, 0) {
                Err(e) => Err(e),
                Ok(m2) => match first_live(m2.actors, id) {
                    None => Err(RegistryError::StaleObject { object_id: id }),
                    Some(j) => Ok(ShadowModel {
                        deleted: push_unique(m2.deleted, id),
                        ..with_actor(m2, j, ActorModel { alive: false, ..m2.actors[j] })
                    }),
                },
            },
        }
    }
}

/// The model after each of `kids[from..]` is marked deleted in turn.
pub open spec fn all_marked(m: ShadowModel, kids: Seq<ObjectId>, fuel: nat, from: int) -> Result<ShadowModel, RegistryError>
    decreases fuel, kids.len() - from,
{
    if from < 0 || from >= kids.len() {
        Ok(m)
    } else {
        match marked_deleted(m, kids[from], fuel) {
            Err(e) => Err(e),
            Ok(m2) => all_marked(m2, kids, fuel, from + 1),
        }
    }
}

/// Actor identifiers are pairwise distinct.
pub open spec fn ids_distinct(actors: Seq<ActorModel>) -> bool {
    forall|a: int, b: int| 0 <= a < b < actors.len() ==> #[trigger] actors[a].object_id != #[trigger] actors[b].object_id
}

/// No recorded deletion names a live actor.
pub open spec fn deleted_are_dead(m: ShadowModel) -> bool {
    forall|k: int, a: int|
        0 <= k < m.deleted.len() && 0 <= a < m.actors.len() && #[trigger] m.actors[a].object_id == #[trigger] m.deleted[k]
            ==> !m.actors[a].alive
}

/// `m2` holds the actors of `m`, with the same identifiers and children, in
/// the same order; only liveness may differ.
pub open spec fn same_shape(m: ShadowModel, m2: ShadowModel) -> bool {
    &&& m2.actors.len() == m.actors.len()
    &&& forall|a: int| 0 <= a < m.actors.len() ==> (#[trigger] m2.actors[a]).object_id == m.actors[a].object_id
        && m2.actors[a].children == m.actors[a].children
}

/// Every actor recorded in `deleted` from position `from` on comes after all
/// of its children, as `m` records them.
pub open spec fn children_first(m: ShadowModel, deleted: Seq<ObjectId>, from: int) -> bool {
    forall|p: int, a: int|
        from <= p < deleted.len() && 0 <= a < m.actors.len() && #[trigger] m.actors[a].object_id == #[trigger] deleted[p]
            ==> forall|c: int| 0 <= c < m.actors[a].children.len() ==> deleted.take(p).contains(#[trigger] m.actors[a].children[c])
}

proof fn lemma_marked_children_first(m: ShadowModel, id: ObjectId, fuel: nat)
    requires
        ids_distinct(m.actors),
        deleted_are_dead(m),
        marked_deleted(m, id, fuel) is Ok,
    ensures
        ({
            let m2 = marked_deleted(m, id, fuel)->Ok_0;
            &&& same_shape(m, m2)
            &&& deleted_are_dead(m2)
            &&& m.deleted.len() < m2.deleted.len()
            &&& m2.deleted.take(m.deleted.len() as int) == m.deleted
            &&& m2.deleted.last() == id
            &&& children_first(m, m2.deleted, m.deleted.len() as int)
        }),
    decreases fuel, 0int,
{
    lemma_first_live_found(m.actors, id, 0);
    let i = first_live(m.actors, id)->0;
    let kids = m.actors[i].children;
    lemma_all_marked_children_first(m, kids, (fuel - 1) as nat, 0);
    let m2 = all_marked(m, kids, (fuel - 1) as nat, 0)->Ok_0;
    lemma_first_live_found(m2.actors, id, 0);
    let j = first_live(m2.actors, id)->0;
    assert(!m2.deleted.contains(id)) by {
        if m2.deleted.contains(id) {
            let k = choose|k: int| 0 <= k < m2.deleted.len() && m2.deleted[k] == id;
            assert(m2.actors[j].object_id == m2.deleted[k]);
        }
    }
    let m3 = marked_deleted(m, id, fuel)->Ok_0;
    assert(m3.deleted == m2.deleted.push(id));
    assert(m3.actors == m2.actors.update(j, ActorModel { alive: false, ..m2.actors[j] }));
    assert forall|a: int| 0 <= a < m.actors.len() implies (#[trigger] m3.actors[a]).object_id == m.actors[a].object_id
        && m3.actors[a].children == m.actors[a].children by {
        assert(m2.actors[a].object_id == m.actors[a].object_id);
    }
    assert forall|k: int, a: int|
        0 <= k < m3.deleted.len() && 0 <= a < m3.actors.len() && #[trigger] m3.actors[a].object_id == #[trigger] m3.deleted[k]
            implies !m3.actors[a].alive by {
        if a != j {
            if k < m2.deleted.len() {
                assert(m2.actors[a].object_id == m2.deleted[k]);
            } else {
                assert(m.actors[a].object_id == id);
                assert(m.actors[j].object_id == id);
                if a < j {
                    assert(m.actors[a].object_id != m.actors[j].object_id);
                } else {
                    assert(m.actors[j].object_id != m.actors[a].object_id);
                }
            }
        }
    }
    assert(m3.deleted.take(m.deleted.len() as int) =~= m2.deleted.take(m.deleted.len() as int));
    assert forall|p: int, a: int|
        m.deleted.len() <= p < m3.deleted.len() && 0 <= a < m.actors.len() && #[trigger] m.actors[a].object_id == #[trigger] m3.deleted[p]
            implies forall|c: int| 0 <= c < m.actors[a].children.len() ==> m3.deleted.take(p).contains(#[trigger] m.actors[a].children[c]) by {
        if p < m2.deleted.len() {
            assert(m3.deleted.take(p) =~= m2.deleted.take(p));
            assert(m.actors[a].object_id == m2.deleted[p]);
        } else {
            assert(m3.deleted.take(p) =~= m2.deleted);
            assert(m.actors[a].object_id == id);
            if a != i {
                if a < i {
                    assert(m.actors[a].object_id != m.actors[i].object_id);
                } else {
                    assert(m.actors[i].object_id != m.actors[a].object_id);
                }
            }
        }
    }
}

proof fn lemma_all_marked_children_first(m: ShadowModel, kids: Seq<ObjectId>, fuel: nat, from: int)
    requires
        0 <= from,
        ids_distinct(m.actors),
        deleted_are_dead(m),
        all_marked(m, kids, fuel, from) is Ok,
    ensures
        ({
            let m2 = all_marked(m, kids, fuel, from)->Ok_0;
            &&& same_shape(m, m2)
            &&& deleted_are_dead(m2)
            &&& m.deleted.len() <= m2.deleted.len()
            &&& m2.deleted.take(m.deleted.len() as int) == m.deleted
            &&& forall|k: int| from <= k < kids.len() ==> m2.deleted.contains(#[trigger] kids[k])
            &&& children_first(m, m2.deleted, m.deleted.len() as int)
        }),
    decreases fuel, kids.len() - from,
{
    if from >= kids.len() {
        assert(m.deleted.take(m.deleted.len() as int) =~= m.deleted);
    } else {
        lemma_marked_children_first(m, kids[from], fuel);
        let m1 = marked_deleted(m, kids[from], fuel)->Ok_0;
        assert forall|a: int, b: int| 0 <= a < b < m1.actors.len() implies #[trigger] m1.actors[a].object_id
            != #[trigger] m1.actors[b].object_id by {
            assert(m1.actors[a].object_id == m.actors[a].object_id);
            assert(m1.actors[b].object_id == m.actors[b].object_id);
        }
        lemma_all_marked_children_first(m1, kids, fuel, from + 1);
        let m2 = all_marked(m, kids, fuel, from)->Ok_0;
        assert(m2 == all_marked(m1, kids, fuel, from + 1)->Ok_0);
        let n0 = m.deleted.len() as int;
        let n1 = m1.deleted.len() as int;
        assert(m2.deleted.take(n0) =~= m2.deleted.take(n1).take(n0));
        assert forall|a: int| 0 <= a < m.actors.len() implies (#[trigger] m2.actors[a]).object_id == m.actors[a].object_id
            && m2.actors[a].children == m.actors[a].children by {
            assert(m1.actors[a].object_id == m.actors[a].object_id);
        }
        assert(m1.deleted[n1 - 1] == kids[from]);
        assert(m2.deleted[n1 - 1] == m2.deleted.take(n1)[n1 - 1]);
        assert(m2.deleted.contains(kids[from]));
        assert forall|p: int, a: int|
            n0 <= p < m2.deleted.len() && 0 <= a < m.actors.len() && #[trigger] m.actors[a].object_id == #[trigger] m2.deleted[p]
                implies forall|c: int| 0 <= c < m.actors[a].children.len() ==> m2.deleted.take(p).contains(#[trigger] m.actors[a].children[c]) by {
            if p < n1 {
                assert(m2.deleted[p] == m2.deleted.take(n1)[p]);
                assert(m1.deleted[p] == m2.deleted[p]);
                assert forall|c: int| 0 <= c < m.actors[a].children.len() implies m2.deleted.take(p).contains(#[trigger] m.actors[a].children[c]) by {
                    assert(m1.deleted.take(p).contains(m.actors[a].children[c]));
                    assert(m2.deleted.take(p) =~= m1.deleted.take(p));
                }
            } else {
                assert(m1.actors[a].object_id == m.actors[a].object_id);
                assert(m1.actors[a].children == m.actors[a].children);
                assert forall|c: int| 0 <= c < m.actors[a].children.len() implies m2.deleted.take(p).contains(#[trigger] m.actors[a].children[c]) by {
                    assert(m2.deleted.take(p).contains(m1.actors[a].children[c]));
                }
            }
        }
    }
}

/// Deleting a subtree retires its actors child-first: on a tree whose actor
/// identifiers are distinct and whose recorded deletions are all dead, the
/// marking of `id` records `id` last, after every actor it newly records,
/// and records each actor only after all of its children.
pub proof fn lemma_deletion_is_child_first(m: ShadowModel, id: ObjectId, fuel: nat)
    requires
        ids_distinct(m.actors),
        deleted_are_dead(m),
        marked_deleted(m, id, fuel) is Ok,
    ensures
        ({
            let m2 = marked_deleted(m, id, fuel)->Ok_0;
            &&& m2.deleted.take(m.deleted.len() as int) == m.deleted
            &&& m2.deleted.last() == id
            &&& children_first(m, m2.deleted, m.deleted.len() as int)
        }),
{
    lemma_marked_children_first(m, id, fuel);
}

/// The model after the subtree of `id` is deleted and recorded as one group.
pub open spec fn subtree_deleted(m: ShadowModel, id: ObjectId) -> Result<ShadowModel, RegistryError> {
    match owner_removed(m, id) {
        Err(e) => Err(e),
        Ok(m2) => match marked_deleted(m2, id, m2.actors.len()) {
            Err(e) => Err(e),
            Ok(m3) => Ok(ShadowModel {
                groups: m3.groups.push(m3.deleted.subrange(m2.deleted.len() as int, m3.deleted.len() as int)),
                ..m3
            }),
        },
    }
}

/// The model after one Stage direction is rehearsed: tree directions change
/// the tree, the others leave it as it is; the high-water marks then take in
/// the new sizes.
pub open spec fn applied(m: ShadowModel, direction: StageDirection) -> Result<ShadowModel, RegistryError> {
    let outcome = match direction {
        StageDirection::Reparent { object_id, new_parent, index } => reparented(m, object_id, new_parent, index as int),
        StageDirection::PromoteRoot { object_id, name, index } => promoted(m, object_id, name@, index as int),
        StageDirection::Reorder { object_id, index } => reordered(m, object_id, index as int),
        StageDirection::Delete { object_id } => subtree_deleted(m, object_id),
        _ => Ok(m),
    };
    match outcome {
        Ok(m2) => Ok(raise_maxima(m2)),
        Err(e) => Err(e),
    }
}

/// Number of live actors.
pub open spec fn live_count(actors: Seq<ActorModel>) -> nat
    decreases actors.len(),
{
    if actors.len() == 0 {
        0
    } else {
        live_count(actors.drop_last()) + if actors.last().alive {
            1nat
        } else {
            0nat
        }
    }
}

/// Whether some root already carries `name`.
pub open spec fn root_named(roots: Seq<(Seq<char>, ObjectId)>, name: Seq<char>) -> bool {
    exists|k: int| 0 <= k < roots.len() && #[trigger] roots[k].0 == name
}

/// The model after a new actor `id` of type `type_id` is attached at
/// `destination`, when at most `max_actors` may be live.
pub open spec fn created(
    m: ShadowModel,
    max_actors: nat,
    id: ObjectId,
    type_id: TypeId,
    capabilities: ActorCapabilities,
    child_policy: ChildPolicy,
    destination: PreparedCreateDestination,
) -> Result<ShadowModel, RegistryError> {
    let fresh = |parent: Option<ObjectId>| ActorModel {
        object_id: id,
        type_id,
        capabilities,
        child_policy,
        parent,
        children: Seq::empty(),
        max_children: 0,
        alive: true,
    };
    if live_count(m.actors) >= max_actors {
        Err(RegistryError::Capacity { kind: CapacityKind::Actors })
    } else {
        match destination {
            PreparedCreateDestination::Root { name } => if name@.len() == 0 || capabilities@ & 1u32 != 1u32 {
                Err(RegistryError::InvalidParent)
            } else if root_named(m.roots, name@) {
                Err(RegistryError::DuplicateRoot)
            } else {
                Ok(raise_maxima(ShadowModel {
                    roots: m.roots.push((name@, id)),
                    actors: m.actors.push(fresh(None)),
                    ..m
                }))
            },
            PreparedCreateDestination::Child { parent } => match first_live(m.actors, parent) {
                None => Err(RegistryError::StaleObject { object_id: parent }),
                Some(pi) => if !policy_allows(m.actors[pi].child_policy, type_id, capabilities) {
                    Err(RegistryError::InvalidParent)
                } else {
                    let m2 = with_children(m, pi, m.actors[pi].children.push(id));
                    Ok(raise_maxima(ShadowModel { actors: m2.actors.push(fresh(Some(parent))), ..m2 }))
                },
            },
        }
    }
}

/// Whether the subtree of `id`, standing at root-inclusive `depth`, stays
/// within `max_depth` levels.
pub open spec fn depth_within(actors: Seq<ActorModel>, max_depth: int, id: ObjectId, depth: int) -> Result<(), RegistryError>
    decreases max_depth + 1 - depth, 0int,
{
    if depth > max_depth {
        Err(RegistryError::Capacity { kind: CapacityKind::TreeDepth })
    } else {
        match first_live(actors, id) {
            None => Err(RegistryError::StaleObject { object_id: id }),
            Some(i) => children_within(actors, max_depth, actors[i].children, depth + 1, 0),
        }
    }
}

/// Whether the subtrees of `kids[from..]`, standing at `depth`, stay within
/// `max_depth` levels, checked child by child.
pub open spec fn children_within(actors: Seq<ActorModel>, max_depth: int, kids: Seq<ObjectId>, depth: int, from: int) -> Result<(), RegistryError>
    decreases max_depth + 1 - depth, kids.len() - from,
{
    if from < 0 || from >= kids.len() || depth > max_depth + 1 {
        Ok(())
    } else {
        match depth_within(actors, max_depth, kids[from], depth) {
            Err(e) => Err(e),
            Ok(()) => children_within(actors, max_depth, kids, depth, from + 1),
        }
    }
}

/// Whether the roots from position `from` on carry names not used before
/// them, have no parent, and keep their trees within `max_depth` levels.
pub open spec fn roots_checked(m: ShadowModel, max_depth: int, from: int) -> Result<(), RegistryError>
    decreases m.roots.len() - from,
{
    if from < 0 || from >= m.roots.len() {
        Ok(())
    } else if exists|k: int| 0 <= k < from && #[trigger] m.roots[k].0 == m.roots[from].0 {
        Err(RegistryError::InvalidParent)
    } else {
        match first_live(m.actors, m.roots[from].1) {
            None => Err(RegistryError::StaleObject { object_id: m.roots[from].1 }),
            Some(i) => if m.actors[i].parent is Some {
                Err(RegistryError::InvalidParent)
            } else {
                match depth_within(m.actors, max_depth, m.roots[from].1, 1) {
                    Err(e) => Err(e),
                    Ok(()) => roots_checked(m, max_depth, from + 1),
                }
            },
        }
    }
}

/// Whether the rehearsed tree fits `limits`: root count, unique root names,
/// parentless roots, tree depth, and children per live actor, checked in
/// that order.
pub open spec fn final_tree_checked(m: ShadowModel, limits: RegistryLimits) -> Result<(), RegistryError> {
    if m.roots.len() > limits.max_roots {
        Err(RegistryError::Capacity { kind: CapacityKind::Roots })
    } else {
        match roots_checked(m, limits.max_tree_depth as int, 0) {
            Err(e) => Err(e),
            Ok(()) => if exists|i: int| 0 <= i < m.actors.len() && #[trigger] m.actors[i].alive
                && m.actors[i].children.len() > limits.max_children_per_actor {
                Err(RegistryError::Capacity { kind: CapacityKind::Children })
            } else {
                Ok(())
            },
        }
    }
}

/// `after` keeps the actors of `before` in place with their identifiers and
/// high-water marks, keeps the root high-water mark, and only extends the
/// deletion record.
pub open spec fn keeps_shape(before: ShadowModel, after: ShadowModel) -> bool {
    &&& after.actors.len() == before.actors.len()
    &&& forall|i: int| 0 <= i < before.actors.len() ==> {
        &&& #[trigger] after.actors[i].object_id == before.actors[i].object_id
        &&& after.actors[i].max_children == before.actors[i].max_children
    }
    &&& after.max_roots == before.max_roots
    &&& before.deleted.len() <= after.deleted.len()
    &&& after.deleted.subrange(0, before.deleted.len() as int) == before.deleted
}

proof fn lemma_keeps_shape_trans(a: ShadowModel, b: ShadowModel, c: ShadowModel)
    requires
        keeps_shape(a, b),
        keeps_shape(b, c),
    ensures
        keeps_shape(a, c),
{
    assert(c.deleted.subrange(0, a.deleted.len() as int) =~= c.deleted.subrange(0, b.deleted.len() as int).subrange(0, a.deleted.len() as int));
}

proof fn lemma_owner_removed_keeps(m: ShadowModel, id: ObjectId)
    ensures
        owner_removed(m, id) matches Ok(m2) ==> keeps_shape(m, m2),
{
    assert(m.deleted.subrange(0, m.deleted.len() as int) =~= m.deleted);
    lemma_first_live_found(m.actors, id, 0);
    if let Some(i) = first_live(m.actors, id) {
        if let Some(p) = m.actors[i].parent {
            lemma_first_live_found(m.actors, p, 0);
        }
    }
}

proof fn lemma_parent_set_keeps(m: ShadowModel, id: ObjectId, parent: Option<ObjectId>)
    ensures
        parent_set(m, id, parent) matches Ok(m2) ==> keeps_shape(m, m2),
{
    assert(m.deleted.subrange(0, m.deleted.len() as int) =~= m.deleted);
    lemma_first_live_found(m.actors, id, 0);
}

proof fn lemma_marked_deleted_keeps(m: ShadowModel, id: ObjectId, fuel: nat)
    ensures
        marked_deleted(m, id, fuel) matches Ok(m2) ==> keeps_shape(m, m2),
    decreases fuel, 0int,
{
    if fuel > 0 {
        if let Some(i) = first_live(m.actors, id) {
            lemma_all_marked_keeps(m, m.actors[i].children, (fuel - 1) as nat, 0);
            if let Ok(m2) = all_marked(m, m.actors[i].children, (fuel - 1) as nat, 0) {
                if let Some(j) = first_live(m2.actors, id) {
                    lemma_first_live_found(m2.actors, id, 0);
                    let m3 = ShadowModel {
                        deleted: push_unique(m2.deleted, id),
                        ..with_actor(m2, j, ActorModel { alive: false, ..m2.actors[j] })
                    };
                    assert(m3.deleted.subrange(0, m2.deleted.len() as int) =~= m2.deleted);
                    assert(keeps_shape(m2, m3));
                    lemma_keeps_shape_trans(m, m2, m3);
                }
            }
        }
    }
}

proof fn lemma_all_marked_keeps(m: ShadowModel, kids: Seq<ObjectId>, fuel: nat, from: int)
    ensures
        all_marked(m, kids, fuel, from) matches Ok(m2) ==> keeps_shape(m, m2),
    decreases fuel, kids.len() - from,
{
    if from < 0 || from >= kids.len() {
        assert(m.deleted.subrange(0, m.deleted.len() as int) =~= m.deleted);
    } else {
        lemma_marked_deleted_keeps(m, kids[from], fuel);
        if let Ok(m2) = marked_deleted(m, kids[from], fuel) {
            lemma_all_marked_keeps(m2, kids, fuel, from + 1);
            if let Ok(m3) = all_marked(m2, kids, fuel, from + 1) {
                lemma_keeps_shape_trans(m, m2, m3);
            }
        }
    }
}

/// Rehearsing a direction never removes an actor from the shadow or changes
/// its identifier: deletion only marks actors. The high-water marks never
/// fall and afterwards cover the current number of roots and of each actor's
/// children, and the deletion record is only ever extended.
pub proof fn lemma_apply_keeps_actors_and_raises_marks(m: ShadowModel, direction: StageDirection)
    requires
        applied(m, direction) is Ok,
    ensures
        ({
            let m2 = applied(m, direction)->Ok_0;
            &&& m2.actors.len() == m.actors.len()
            &&& forall|i: int| 0 <= i < m.actors.len() ==> {
                &&& #[trigger] m2.actors[i].object_id == m.actors[i].object_id
                &&& m2.actors[i].max_children >= m.actors[i].max_children
                &&& m2.actors[i].max_children >= m2.actors[i].children.len()
            }
            &&& m2.max_roots >= m.max_roots
            &&& m2.max_roots >= m2.roots.len()
            &&& m.deleted.len() <= m2.deleted.len()
            &&& m2.deleted.subrange(0, m.deleted.len() as int) == m.deleted
        }),
{
    let outcome = match direction {
        StageDirection::Reparent { object_id, new_parent, index } => reparented(m, object_id, new_parent, index as int),
        StageDirection::PromoteRoot { object_id, name, index } => promoted(m, object_id, name@, index as int),
        StageDirection::Reorder { object_id, index } => reordered(m, object_id, index as int),
        StageDirection::Delete { object_id } => subtree_deleted(m, object_id),
        _ => Ok(m),
    };
    assert(m.deleted.subrange(0, m.deleted.len() as int) =~= m.deleted);
    match direction {
        StageDirection::Reparent { object_id, new_parent, index } => {
            lemma_owner_removed_keeps(m, object_id);
            if let Ok(m2) = owner_removed(m, object_id) {
                if let Some(qi) = first_live(m2.actors, new_parent) {
                    lemma_first_live_found(m2.actors, new_parent, 0);
                    let m3 = with_children(m2, qi, m2.actors[qi].children.insert(index as int, object_id));
                    assert(m3.deleted.subrange(0, m2.deleted.len() as int) =~= m2.deleted);
                    assert(keeps_shape(m2, m3));
                    lemma_keeps_shape_trans(m, m2, m3);
                    lemma_parent_set_keeps(m3, object_id, Some(new_parent));
                    if let Ok(m4) = parent_set(m3, object_id, Some(new_parent)) {
                        lemma_keeps_shape_trans(m, m3, m4);
                    }
                }
            }
        },
        StageDirection::PromoteRoot { object_id, name, index } => {
            lemma_owner_removed_keeps(m, object_id);
            if let Ok(m2) = owner_removed(m, object_id) {
                let m3 = ShadowModel { roots: m2.roots.insert(index as int, (name@, object_id)), ..m2 };
                assert(m3.deleted.subrange(0, m2.deleted.len() as int) =~= m2.deleted);
                lemma_keeps_shape_trans(m, m2, m3);
                lemma_parent_set_keeps(m3, object_id, None);
                if let Ok(m4) = parent_set(m3, object_id, None) {
                    lemma_keeps_shape_trans(m, m3, m4);
                }
            }
        },
        StageDirection::Reorder { object_id, index } => {
            if let Some(i) = first_live(m.actors, object_id) {
                lemma_first_live_found(m.actors, object_id, 0);
                if let Some(p) = m.actors[i].parent {
                    if let Some(pi) = first_live(m.actors, p) {
                        lemma_first_live_found(m.actors, p, 0);
                    }
                }
            }
        },
        StageDirection::Delete { object_id } => {
            lemma_owner_removed_keeps(m, object_id);
            if let Ok(m2) = owner_removed(m, object_id) {
                lemma_marked_deleted_keeps(m2, object_id, m2.actors.len());
                if let Ok(m3) = marked_deleted(m2, object_id, m2.actors.len()) {
                    lemma_keeps_shape_trans(m, m2, m3);
                }
            }
        },
        _ => {},
    }
    assert(outcome is Ok);
    let mid = outcome->Ok_0;
    assert(keeps_shape(m, mid));
}

/// Reinserting a root entry elsewhere moves it in the model.
proof fn lemma_roots_moved(before: Seq<(String, ObjectId)>, k: int, index: int)
    requires
        0 <= k < before.len(),
        0 <= index < before.len(),
    ensures
        before.remove(k).insert(index, before[k]).map_values(|r: (String, ObjectId)| (r.0@, r.1))
            == before.map_values(|r: (String, ObjectId)| (r.0@, r.1)).remove(k).insert(index, (before[k].0@, before[k].1)),
        before.remove(k).map_values(|r: (String, ObjectId)| (r.0@, r.1))
            == before.map_values(|r: (String, ObjectId)| (r.0@, r.1)).remove(k),
{
    assert(before.remove(k).insert(index, before[k]).map_values(|r: (String, ObjectId)| (r.0@, r.1))
        =~= before.map_values(|r: (String, ObjectId)| (r.0@, r.1)).remove(k).insert(index, (before[k].0@, before[k].1)));
    assert(before.remove(k).map_values(|r: (String, ObjectId)| (r.0@, r.1))
        =~= before.map_values(|r: (String, ObjectId)| (r.0@, r.1)).remove(k));
}

/// Reinserting an actor where one was removed replaces it in the model.
proof fn lemma_reinsert(before: Seq<ShadowActor>, after: Seq<ShadowActor>, i: int, a: ShadowActor)
    requires
        0 <= i < before.len(),
        after == before.remove(i).insert(i, a),
    ensures
        after.map_values(|x: ShadowActor| x@) == before.map_values(|x: ShadowActor| x@).update(i, a@),
{
    assert(after =~= before.update(i, a));
    assert(after.map_values(|x: ShadowActor| x@) =~= before.map_values(|x: ShadowActor| x@).update(i, a@));
}

/// An identifier has a position exactly when the sequence holds it.
pub proof fn lemma_position_contains(ids: Seq<ObjectId>, id: ObjectId, start: int)
    requires
        0 <= start <= ids.len(),
    ensures
        position_from(ids, id, start) is Some <==> exists|k: int| start <= k < ids.len() && ids[k] == id,
    decreases ids.len() - start,
{
    if start < ids.len() {
        lemma_position_contains(ids, id, start + 1);
        if ids[start] == id {
            assert(start <= start < ids.len() && ids[start] == id);
        }
        if exists|k: int| start <= k < ids.len() && ids[k] == id {
            let k = choose|k: int| start <= k < ids.len() && ids[k] == id;
            if k > start {
                assert(start + 1 <= k < ids.len() && ids[k] == id);
            }
        }
    }
}

/// Copy of a list of identifiers.
pub(crate) fn copy_ids(ids: &Vec<ObjectId>) -> (r: Vec<ObjectId>)
    ensures
        r@ == ids@,
{
    let mut out: Vec<ObjectId> = Vec::new();
    let mut k: usize = 0;
    while k < ids.len()
        invariant
            k <= ids@.len(),
            out@ == ids@.subrange(0, k as int),
        decreases ids@.len() - k,
    {
        out.push(ids[k]);
        k = k + 1;
        assert(out@ =~= ids@.subrange(0, k as int));
    }
    assert(out@ =~= ids@);
    out
}

/// Index of the first occurrence of `id` in `ids`.
fn index_of(ids: &Vec<ObjectId>, id: ObjectId) -> (r: Option<usize>)
    ensures
        r matches Some(k) ==> k < ids@.len() && ids@[k as int] == id,
        r matches Some(k) ==> position(ids@, id) == Some(k as int),
        r is None ==> position(ids@, id) is None,
{
    proof { lemma_position_found(ids@, id, 0); }
    let mut k: usize = 0;
    while k < ids.len()
        invariant
            k <= ids@.len(),
            position(ids@, id) == position_from(ids@, id, k as int),
        decreases ids@.len() - k,
    {
        if ids[k] == id {
            return Some(k);
        }
        k = k + 1;
    }
    None
}

impl TreeShadow {
    /// Replace the children of the actor at `i`, returning the previous ones.
    fn swap_children(&mut self, i: usize, children: Vec<ObjectId>) -> (r: Vec<ObjectId>)
        requires
            i < old(self)@.actors.len(),
        ensures
            r@ == old(self)@.actors[i as int].children,
            final(self)@ == with_children(old(self)@, i as int, children@),
    {
        let mut a = self.actors.remove(i);
        let mut prev = children;
        std::mem::swap(&mut a.children, &mut prev);
        let ghost a_new = a;
        self.actors.insert(i, a);
        proof {
            lemma_reinsert(old(self).actors@, self.actors@, i as int, a_new);
            assert(self@ =~~= with_children(old(self)@, i as int, children@));
        }
        prev
    }

    /// Mark the actor at `i` deleted.
    fn set_dead(&mut self, i: usize)
        requires
            i < old(self)@.actors.len(),
        ensures
            final(self)@ == with_actor(old(self)@, i as int, ActorModel { alive: false, ..old(self)@.actors[i as int] }),
    {
        let mut a = self.actors.remove(i);
        a.alive = false;
        let ghost a_new = a;
        self.actors.insert(i, a);
        proof {
            lemma_reinsert(old(self).actors@, self.actors@, i as int, a_new);
            assert(self@ =~~= with_actor(old(self)@, i as int, ActorModel { alive: false, ..old(self)@.actors[i as int] }));
        }
    }

    /// Set the parent of the actor at `i`.
    fn set_parent(&mut self, i: usize, parent: Option<ObjectId>)
        requires
            i < old(self)@.actors.len(),
        ensures
            final(self)@ == with_actor(old(self)@, i as int, ActorModel { parent, ..old(self)@.actors[i as int] }),
    {
        let mut a = self.actors.remove(i);
        a.parent = parent;
        let ghost a_new = a;
        self.actors.insert(i, a);
        proof {
            lemma_reinsert(old(self).actors@, self.actors@, i as int, a_new);
            assert(self@ =~~= with_actor(old(self)@, i as int, ActorModel { parent, ..old(self)@.actors[i as int] }));
        }
    }

    /// Index of the first root entry naming `object_id`.
    fn root_index(&self, object_id: ObjectId) -> (r: Option<usize>)
        ensures
            r matches Some(k) ==> k < self@.roots.len() && self@.roots[k as int].1 == object_id
                && k < self.roots@.len(),
            r matches Some(k) ==> root_position(self@.roots, object_id) == Some(k as int),
            r is None ==> root_position(self@.roots, object_id) is None,
    {
        proof { lemma_root_position_found(self@.roots, object_id, 0); }
        let mut k: usize = 0;
        while k < self.roots.len()
            invariant
                k <= self.roots@.len(),
                self@.roots.len() == self.roots@.len(),
                forall|j: int| 0 <= j < self.roots@.len() ==> #[trigger] self@.roots[j] == (self.roots@[j].0@, self.roots@[j].1),
                root_position(self@.roots, object_id) == root_position_from(self@.roots, object_id, k as int),
            decreases self.roots@.len() - k,
        {
            if self.roots[k].1 == object_id {
                return Some(k);
            }
            k = k + 1;
        }
        None
    }

    /// Shadow holding `actors` and the named `roots`, with nothing deleted.
    pub fn new(actors: Vec<ShadowActor>, roots: Vec<(String, ObjectId)>) -> (r: Self)
        ensures
            r@.actors == actors@.map_values(|a: ShadowActor| a@),
            r@.roots == roots@.map_values(|x: (String, ObjectId)| (x.0@, x.1)),
            r@.deleted == Seq::<ObjectId>::empty(),
            r@.groups == Seq::<Seq<ObjectId>>::empty(),
            r@.max_roots == roots@.len(),
    {
        let max_roots = roots.len();
        let r = TreeShadow {
            actors,
            roots,
            deleted_object_ids: Vec::new(),
            delete_groups: Vec::new(),
            max_roots,
        };
        assert(r@.groups =~= Seq::<Seq<ObjectId>>::empty());
        r
    }

    /// Index of the first live actor with identifier `object_id`.
    pub fn find_live(&self, object_id: ObjectId) -> (r: Result<usize, RegistryError>)
        ensures
            r matches Ok(i) ==> i < self@.actors.len() && self@.actors[i as int].object_id == object_id
                && self@.actors[i as int].alive,
            r matches Ok(i) ==> first_live(self@.actors, object_id) == Some(i as int),
            r is Err ==> first_live(self@.actors, object_id) is None
                && r == Err::<usize, RegistryError>(RegistryError::StaleObject { object_id }),
    {
        proof { lemma_first_live_found(self@.actors, object_id, 0); }
        let mut i: usize = 0;
        while i < self.actors.len()
            invariant
                i <= self.actors@.len(),
                self@.actors.len() == self.actors@.len(),
                forall|k: int| 0 <= k < self.actors@.len() ==> #[trigger] self@.actors[k] == self.actors@[k]@,
                first_live(self@.actors, object_id) == first_live_from(self@.actors, object_id, i as int),
            decreases self.actors@.len() - i,
        {
            if self.actors[i].object_id == object_id && self.actors[i].alive {
                return Ok(i);
            }
            i = i + 1;
        }
        Err(RegistryError::StaleObject { object_id })
    }

    /// Detach actor `object_id` from its parent's children, or from the root
    /// order if it is a root.
    pub fn remove_from_owner(&mut self, object_id: ObjectId) -> (r: Result<(), RegistryError>)
        ensures
            match owner_removed(old(self)@, object_id) {
                Ok(m) => r is Ok && final(self)@ == m,
                Err(e) => r == Err::<(), RegistryError>(e) && final(self)@ == old(self)@,
            },
    {
        let i = match self.find_live(object_id) {
            Ok(found) => found,
            Err(e) => return Err(e),
        };
        assert(self@.actors[i as int] == self.actors@[i as int]@);
        match self.actors[i].parent {
            Some(parent) => {
                let pi = match self.find_live(parent) {
                    Ok(found) => found,
                    Err(e) => return Err(e),
                };
                assert(self@.actors[pi as int] == self.actors@[pi as int]@);
                match index_of(&self.actors[pi].children, object_id) {
                    None => Err(RegistryError::Internal),
                    Some(k) => {
                        let mut children = self.swap_children(pi, Vec::new());
                        children.remove(k);
                        let _ = self.swap_children(pi, children);
                        proof {
                            assert(self@ =~~= with_children(old(self)@, pi as int, old(self)@.actors[pi as int].children.remove(k as int)));
                        }
                        Ok(())
                    },
                }
            },
            None => match self.root_index(object_id) {
                None => Err(RegistryError::Internal),
                Some(k) => {
                    let ghost before = self.roots@;
                    self.roots.remove(k);
                    proof {
                        lemma_roots_moved(before, k as int, 0);
                        assert(self@ =~~= ShadowModel { roots: old(self)@.roots.remove(k as int), ..old(self)@ });
                    }
                    Ok(())
                },
            },
        }
    }

    /// Move actor `object_id` to position `index` among its siblings, or
    /// among the roots if it is a root.
    pub fn reorder(&mut self, object_id: ObjectId, index: usize) -> (r: Result<(), RegistryError>)
        ensures
            match reordered(old(self)@, object_id, index as int) {
                Ok(m) => r is Ok && final(self)@ == m,
                Err(e) => r == Err::<(), RegistryError>(e) && final(self)@ == old(self)@,
            },
    {
        let i = match self.find_live(object_id) {
            Ok(found) => found,
            Err(e) => return Err(e),
        };
        assert(self@.actors[i as int] == self.actors@[i as int]@);
        match self.actors[i].parent {
            Some(parent) => {
                let pi = match self.find_live(parent) {
                    Ok(found) => found,
                    Err(e) => return Err(e),
                };
                assert(self@.actors[pi as int] == self.actors@[pi as int]@);
                match index_of(&self.actors[pi].children, object_id) {
                    None => Err(RegistryError::Internal),
                    Some(k) => {
                        if index > self.actors[pi].children.len() - 1 {
                            return Err(RegistryError::Range { field_id: 0 });
                        }
                        let mut children = self.swap_children(pi, Vec::new());
                        let child = children.remove(k);
                        children.insert(index, child);
                        let _ = self.swap_children(pi, children);
                        proof {
                            assert(self@ =~~= with_children(old(self)@, pi as int,
                                old(self)@.actors[pi as int].children.remove(k as int).insert(index as int, object_id)));
                        }
                        Ok(())
                    },
                }
            },
            None => match self.root_index(object_id) {
                None => Err(RegistryError::Internal),
                Some(k) => {
                    if index > self.roots.len() - 1 {
                        return Err(RegistryError::Range { field_id: 0 });
                    }
                    let ghost before = self.roots@;
                    let root = self.roots.remove(k);
                    self.roots.insert(index, root);
                    proof {
                        lemma_roots_moved(before, k as int, index as int);
                        assert(self@ =~~= ShadowModel {
                            roots: old(self)@.roots.remove(k as int).insert(index as int, old(self)@.roots[k as int]),
                            ..old(self)@
                        });
                    }
                    Ok(())
                },
            },
        }
    }

    /// Whether `candidate` lies below `ancestor`, searching at most `fuel`
    /// levels of children.
    fn descends_within(&self, ancestor: ObjectId, candidate: ObjectId, fuel: usize) -> (r: Result<bool, RegistryError>)
        ensures
            r == descends(self@.actors, ancestor, candidate, fuel as nat),
        decreases fuel,
    {
        if fuel == 0 {
            return Err(RegistryError::Internal);
        }
        let i = match self.find_live(ancestor) {
            Ok(found) => found,
            Err(e) => return Err(e),
        };
        assert(self@.actors[i as int] == self.actors@[i as int]@);
        let kids = &self.actors[i].children;
        if index_of(kids, candidate).is_some() {
            return Ok(true);
        }
        assert(descends(self@.actors, ancestor, candidate, fuel as nat)
            == any_descends(self@.actors, kids@, candidate, (fuel - 1) as nat, 0));
        let mut j: usize = 0;
        while j < kids.len()
            invariant
                fuel > 0,
                kids@ == self@.actors[i as int].children,
                j <= kids@.len(),
                descends(self@.actors, ancestor, candidate, fuel as nat)
                    == any_descends(self@.actors, kids@, candidate, (fuel - 1) as nat, j as int),
            decreases kids@.len() - j,
        {
            let found = self.descends_within(kids[j], candidate, fuel - 1);
            assert(any_descends(self@.actors, kids@, candidate, (fuel - 1) as nat, j as int) == match found {
                Err(e) => Err(e),
                Ok(true) => Ok(true),
                Ok(false) => any_descends(self@.actors, kids@, candidate, (fuel - 1) as nat, j + 1),
            });
            match found {
                Err(e) => return Err(e),
                Ok(true) => return Ok(true),
                Ok(false) => {},
            }
            j = j + 1;
        }
        Ok(false)
    }

    /// Move actor `object_id` under `new_parent` at child position `index`.
    pub fn reparent(&mut self, object_id: ObjectId, new_parent: ObjectId, index: usize) -> (r: Result<(), RegistryError>)
        ensures
            match reparented(old(self)@, object_id, new_parent, index as int) {
                Ok(m) => r is Ok && final(self)@ == m,
                Err(e) => r == Err::<(), RegistryError>(e),
            },
    {
        let oi = match self.find_live(object_id) {
            Ok(found) => found,
            Err(e) => return Err(e),
        };
        let pi = match self.find_live(new_parent) {
            Ok(found) => found,
            Err(e) => return Err(e),
        };
        if object_id == new_parent {
            return Err(RegistryError::InvalidParent);
        }
        match self.descends_within(object_id, new_parent, self.actors.len()) {
            Err(e) => return Err(e),
            Ok(true) => return Err(RegistryError::InvalidParent),
            Ok(false) => {},
        }
        assert(self@.actors[oi as int] == self.actors@[oi as int]@);
        assert(self@.actors[pi as int] == self.actors@[pi as int]@);
        if !self.actors[pi].child_policy.allows(self.actors[oi].type_id, self.actors[oi].capabilities) {
            return Err(RegistryError::InvalidParent);
        }
        match self.remove_from_owner(object_id) {
            Err(e) => return Err(e),
            Ok(()) => {},
        }
        let ghost m2 = self@;
        let qi = match self.find_live(new_parent) {
            Ok(found) => found,
            Err(e) => return Err(e),
        };
        assert(self@.actors[qi as int] == self.actors@[qi as int]@);
        if index > self.actors[qi].children.len() {
            return Err(RegistryError::Range { field_id: 0 });
        }
        let mut children = self.swap_children(qi, Vec::new());
        children.insert(index, object_id);
        let _ = self.swap_children(qi, children);
        assert(self@ =~~= with_children(m2, qi as int, m2.actors[qi as int].children.insert(index as int, object_id)));
        let j = match self.find_live(object_id) {
            Ok(found) => found,
            Err(e) => return Err(e),
        };
        self.set_parent(j, Some(new_parent));
        Ok(())
    }

    /// Whether a root other than `object_id` already carries `name`.
    fn name_taken_by_other(&self, name: &String, object_id: ObjectId) -> (r: bool)
        ensures
            r == name_taken(self@.roots, name@, object_id),
    {
        let mut k: usize = 0;
        while k < self.roots.len()
            invariant
                k <= self.roots@.len(),
                self@.roots.len() == self.roots@.len(),
                forall|j: int| 0 <= j < self.roots@.len() ==> #[trigger] self@.roots[j] == (self.roots@[j].0@, self.roots@[j].1),
                forall|j: int| 0 <= j < k ==> !(#[trigger] self@.roots[j].0 == name@ && self@.roots[j].1 != object_id),
            decreases self.roots@.len() - k,
        {
            if str_equal(self.roots[k].0.as_str(), name.as_str()) && self.roots[k].1 != object_id {
                assert(self@.roots[k as int].0 == name@ && self@.roots[k as int].1 != object_id);
                return true;
            }
            k = k + 1;
        }
        false
    }

    /// Make actor `object_id` the root `name` at root position `index`.
    pub fn promote_root(&mut self, object_id: ObjectId, name: &String, index: usize) -> (r: Result<(), RegistryError>)
        ensures
            match promoted(old(self)@, object_id, name@, index as int) {
                Ok(m) => r is Ok && final(self)@ == m,
                Err(e) => r == Err::<(), RegistryError>(e),
            },
    {
        let oi = match self.find_live(object_id) {
            Ok(found) => found,
            Err(e) => return Err(e),
        };
        assert(self@.actors[oi as int] == self.actors@[oi as int]@);
        if name.as_str().is_empty() || !self.actors[oi].capabilities.contains(ActorCapabilities::STAGE_ROOT())
            || self.name_taken_by_other(name, object_id) {
            return Err(RegistryError::InvalidParent);
        }
        match self.remove_from_owner(object_id) {
            Err(e) => return Err(e),
            Ok(()) => {},
        }
        if index > self.roots.len() {
            return Err(RegistryError::Range { field_id: 0 });
        }
        let ghost before = self.roots@;
        let entry = (name.clone(), object_id);
        self.roots.insert(index, entry);
        proof {
            assert(self.roots@.map_values(|x: (String, ObjectId)| (x.0@, x.1))
                =~= before.map_values(|x: (String, ObjectId)| (x.0@, x.1)).insert(index as int, (name@, object_id)));
        }
        let j = match self.find_live(object_id) {
            Ok(found) => found,
            Err(e) => return Err(e),
        };
        self.set_parent(j, None);
        Ok(())
    }

    /// Mark actor `object_id` deleted after everything below it, searching at
    /// most `fuel` levels of children.
    fn mark_deleted(&mut self, object_id: ObjectId, fuel: usize) -> (r: Result<(), RegistryError>)
        ensures
            final(self)@.deleted.len() >= old(self)@.deleted.len(),
            match marked_deleted(old(self)@, object_id, fuel as nat) {
                Ok(m) => r is Ok && final(self)@ == m,
                Err(e) => r == Err::<(), RegistryError>(e),
            },
        decreases fuel,
    {
        if fuel == 0 {
            return Err(RegistryError::Internal);
        }
        let i = match self.find_live(object_id) {
            Ok(found) => found,
            Err(e) => return Err(e),
        };
        assert(self@.actors[i as int] == self.actors@[i as int]@);
        let kids = copy_ids(&self.actors[i].children);
        let ghost entry = self@;
        let mut j: usize = 0;
        while j < kids.len()
            invariant
                fuel > 0,
                entry == old(self)@,
                kids@ == entry.actors[i as int].children,
                first_live(entry.actors, object_id) == Some(i as int),
                j <= kids@.len(),
                self@.deleted.len() >= entry.deleted.len(),
                all_marked(entry, kids@, (fuel - 1) as nat, 0)
                    == all_marked(self@, kids@, (fuel - 1) as nat, j as int),
            decreases kids@.len() - j,
        {
            let ghost here = self@;
            let done = self.mark_deleted(kids[j], fuel - 1);
            assert(all_marked(here, kids@, (fuel - 1) as nat, j as int) == match marked_deleted(here, kids@[j as int], (fuel - 1) as nat) {
                Err(e) => Err(e),
                Ok(m2) => all_marked(m2, kids@, (fuel - 1) as nat, j + 1),
            });
            match done {
                Err(e) => return Err(e),
                Ok(()) => {},
            }
            j = j + 1;
        }
        let ghost m2 = self@;
        assert(all_marked(m2, kids@, (fuel - 1) as nat, kids@.len() as int) == Ok::<ShadowModel, RegistryError>(m2));
        let k = match self.find_live(object_id) {
            Ok(found) => found,
            Err(e) => return Err(e),
        };
        self.set_dead(k);
        proof {
            lemma_position_contains(self.deleted_object_ids@, object_id, 0);
        }
        if index_of(&self.deleted_object_ids, object_id).is_none() {
            self.deleted_object_ids.push(object_id);
        }
        proof {
            assert(self@ =~~= ShadowModel {
                deleted: push_unique(m2.deleted, object_id),
                ..with_actor(m2, k as int, ActorModel { alive: false, ..m2.actors[k as int] })
            });
        }
        Ok(())
    }

    /// Delete actor `object_id` with its subtree and record the deleted actors
    /// as one group.
    pub fn delete_subtree(&mut self, object_id: ObjectId) -> (r: Result<(), RegistryError>)
        ensures
            match subtree_deleted(old(self)@, object_id) {
                Ok(m) => r is Ok && final(self)@ == m,
                Err(e) => r == Err::<(), RegistryError>(e),
            },
    {
        match self.remove_from_owner(object_id) {
            Err(e) => return Err(e),
            Ok(()) => {},
        }
        let first = self.deleted_object_ids.len();
        let fuel = self.actors.len();
        match self.mark_deleted(object_id, fuel) {
            Err(e) => return Err(e),
            Ok(()) => {},
        }
        let mut group: Vec<ObjectId> = Vec::new();
        let mut k: usize = first;
        while k < self.deleted_object_ids.len()
            invariant
                first <= k <= self.deleted_object_ids@.len(),
                group@ == self.deleted_object_ids@.subrange(first as int, k as int),
            decreases self.deleted_object_ids@.len() - k,
        {
            group.push(self.deleted_object_ids[k]);
            k = k + 1;
            assert(group@ =~= self.deleted_object_ids@.subrange(first as int, k as int));
        }
        let ghost m3 = self@;
        let ghost g = group@;
        self.delete_groups.push(group);
        proof {
            assert(self@ =~~= ShadowModel { groups: m3.groups.push(g), ..m3 });
        }
        Ok(())
    }

    /// Let the high-water marks take in the current number of roots and of
    /// each actor's children.
    fn raise_maxima(&mut self)
        ensures
            final(self)@ == raise_maxima(old(self)@),
    {
        let mut i: usize = 0;
        while i < self.actors.len()
            invariant
                i <= self.actors@.len(),
                self@.actors.len() == old(self)@.actors.len(),
                self@.roots == old(self)@.roots,
                self@.deleted == old(self)@.deleted,
                self@.groups == old(self)@.groups,
                self@.max_roots == old(self)@.max_roots,
                forall|k: int| 0 <= k < i ==> #[trigger] self@.actors[k] == raise_maxima(old(self)@).actors[k],
                forall|k: int| i <= k < self@.actors.len() ==> #[trigger] self@.actors[k] == old(self)@.actors[k],
            decreases self.actors@.len() - i,
        {
            let ghost full = self.actors@;
            assert(self@.actors[i as int] == old(self)@.actors[i as int]);
            assert(self@.actors[i as int] == full[i as int]@);
            let mut a = self.actors.remove(i);
            if a.children.len() > a.max_children {
                a.max_children = a.children.len();
            }
            let ghost a_new = a;
            self.actors.insert(i, a);
            proof {
                lemma_reinsert(full, self.actors@, i as int, a_new);
                assert(old(self)@.actors[i as int] == full[i as int]@);
                assert(self@.actors[i as int] =~~= raise_maxima(old(self)@).actors[i as int]);
            }
            i = i + 1;
        }
        if self.roots.len() > self.max_roots {
            self.max_roots = self.roots.len();
        }
        proof {
            assert(self@ =~~= raise_maxima(old(self)@));
        }
    }

    /// Rehearse one Stage direction on the shadow tree.
    pub fn apply(&mut self, direction: &StageDirection) -> (r: Result<(), RegistryError>)
        ensures
            match applied(old(self)@, *direction) {
                Ok(m) => r is Ok && final(self)@ == m,
                Err(e) => r == Err::<(), RegistryError>(e),
            },
    {
        let outcome = match direction {
            StageDirection::Reparent { object_id, new_parent, index } => self.reparent(*object_id, *new_parent, *index),
            StageDirection::PromoteRoot { object_id, name, index } => self.promote_root(*object_id, name, *index),
            StageDirection::Reorder { object_id, index } => self.reorder(*object_id, *index),
            StageDirection::Delete { object_id } => self.delete_subtree(*object_id),
            _ => Ok(()),
        };
        match outcome {
            Err(e) => return Err(e),
            Ok(()) => {},
        }
        self.raise_maxima();
        Ok(())
    }

    /// Every actor of the shadow, in capture order.
    pub fn actors(&self) -> (r: &Vec<ShadowActor>)
        ensures
            r@.map_values(|a: ShadowActor| a@) == self@.actors,
    {
        &self.actors
    }

    /// The named roots in order.
    pub fn roots(&self) -> (r: &Vec<(String, ObjectId)>)
        ensures
            r@.map_values(|x: (String, ObjectId)| (x.0@, x.1)) == self@.roots,
    {
        &self.roots
    }

    /// Deleted actors, each once, in deletion order.
    pub fn deleted_object_ids(&self) -> (r: &Vec<ObjectId>)
        ensures
            r@ == self@.deleted,
    {
        &self.deleted_object_ids
    }

    /// The actors removed by each delete direction, one group per direction.
    pub fn delete_groups(&self) -> (r: &Vec<Vec<ObjectId>>)
        ensures
            r@.map_values(|g: Vec<ObjectId>| g@) == self@.groups,
    {
        &self.delete_groups
    }

    /// Largest number of roots held at any point of the rehearsal.
    pub fn max_roots(&self) -> (r: usize)
        ensures
            r == self@.max_roots,
    {
        self.max_roots
    }

    /// The live actor `object_id`.
    pub fn actor(&self, object_id: ObjectId) -> (r: Result<&ShadowActor, RegistryError>)
        ensures
            r matches Ok(a) ==> first_live(self@.actors, object_id) matches Some(i) && a@ == self@.actors[i],
            r is Err ==> first_live(self@.actors, object_id) is None
                && r == Err::<&ShadowActor, RegistryError>(RegistryError::StaleObject { object_id }),
    {
        match self.find_live(object_id) {
            Ok(i) => {
                assert(self@.actors[i as int] == self.actors@[i as int]@);
                Ok(&self.actors[i])
            },
            Err(e) => Err(e),
        }
    }

    /// Number of live actors.
    fn count_live(&self) -> (r: usize)
        ensures
            r == live_count(self@.actors),
    {
        let mut count: usize = 0;
        let mut i: usize = 0;
        while i < self.actors.len()
            invariant
                i <= self.actors@.len(),
                self@.actors.len() == self.actors@.len(),
                count <= i,
                count == live_count(self@.actors.subrange(0, i as int)),
            decreases self.actors@.len() - i,
        {
            assert(self@.actors.subrange(0, i + 1).drop_last() =~= self@.actors.subrange(0, i as int));
            assert(self@.actors[i as int] == self.actors@[i as int]@);
            if self.actors[i].alive {
                count = count + 1;
            }
            i = i + 1;
        }
        assert(self@.actors.subrange(0, i as int) =~= self@.actors);
        count
    }

    /// Whether some root already carries `name`.
    fn has_root_named(&self, name: &String) -> (r: bool)
        ensures
            r == root_named(self@.roots, name@),
    {
        let mut k: usize = 0;
        while k < self.roots.len()
            invariant
                k <= self.roots@.len(),
                self@.roots.len() == self.roots@.len(),
                forall|j: int| 0 <= j < self.roots@.len() ==> #[trigger] self@.roots[j] == (self.roots@[j].0@, self.roots@[j].1),
                forall|j: int| 0 <= j < k ==> #[trigger] self@.roots[j].0 != name@,
            decreases self.roots@.len() - k,
        {
            if str_equal(self.roots[k].0.as_str(), name.as_str()) {
                assert(self@.roots[k as int].0 == name@);
                return true;
            }
            k = k + 1;
        }
        false
    }

    /// Attach a newly created actor at `destination`, when at most
    /// `max_actors` actors may be live.
    pub fn append_create(
        &mut self,
        max_actors: usize,
        object_id: ObjectId,
        type_id: TypeId,
        capabilities: ActorCapabilities,
        child_policy: ChildPolicy,
        destination: &PreparedCreateDestination,
    ) -> (r: Result<(), RegistryError>)
        ensures
            match created(old(self)@, max_actors as nat, object_id, type_id, capabilities, child_policy, *destination) {
                Ok(m) => r is Ok && final(self)@ == m,
                Err(e) => r == Err::<(), RegistryError>(e) && final(self)@ == old(self)@,
            },
    {
        if self.count_live() >= max_actors {
            return Err(RegistryError::Capacity { kind: CapacityKind::Actors });
        }
        let parent = match destination {
            PreparedCreateDestination::Root { name } => {
                if name.as_str().is_empty() || !capabilities.contains(ActorCapabilities::STAGE_ROOT()) {
                    return Err(RegistryError::InvalidParent);
                }
                if self.has_root_named(name) {
                    return Err(RegistryError::DuplicateRoot);
                }
                let ghost before = self.roots@;
                self.roots.push((name.clone(), object_id));
                proof {
                    assert(self.roots@.map_values(|x: (String, ObjectId)| (x.0@, x.1))
                        =~= before.map_values(|x: (String, ObjectId)| (x.0@, x.1)).push((name@, object_id)));
                }
                None
            },
            PreparedCreateDestination::Child { parent } => {
                let pi = match self.find_live(*parent) {
                    Ok(found) => found,
                    Err(e) => return Err(e),
                };
                assert(self@.actors[pi as int] == self.actors@[pi as int]@);
                if !self.actors[pi].child_policy.allows(type_id, capabilities) {
                    return Err(RegistryError::InvalidParent);
                }
                let mut children = self.swap_children(pi, Vec::new());
                children.push(object_id);
                let _ = self.swap_children(pi, children);
                Some(*parent)
            },
        };
        let ghost before = self@;
        self.actors.push(ShadowActor {
            object_id,
            type_id,
            capabilities,
            child_policy,
            parent,
            children: Vec::new(),
            max_children: 0,
            alive: true,
        });
        proof {
            assert(self@.actors =~~= before.actors.push(ActorModel {
                object_id,
                type_id,
                capabilities,
                child_policy,
                parent,
                children: Seq::empty(),
                max_children: 0,
                alive: true,
            }));
        }
        self.raise_maxima();
        Ok(())
    }
    /// Whether the subtree of `object_id`, standing at `depth`, stays within
    /// `max_depth` levels.
    fn validate_depth(&self, max_depth: usize, object_id: ObjectId, depth: usize) -> (r: Result<(), RegistryError>)
        requires
            max_depth < usize::MAX,
            depth <= max_depth + 1,
        ensures
            r == depth_within(self@.actors, max_depth as int, object_id, depth as int),
        decreases max_depth + 1 - depth,
    {
        if depth > max_depth {
            return Err(RegistryError::Capacity { kind: CapacityKind::TreeDepth });
        }
        let i = match self.find_live(object_id) {
            Ok(found) => found,
            Err(e) => return Err(e),
        };
        assert(self@.actors[i as int] == self.actors@[i as int]@);
        let kids = &self.actors[i].children;
        let mut j: usize = 0;
        while j < kids.len()
            invariant
                max_depth < usize::MAX,
                depth <= max_depth,
                kids@ == self@.actors[i as int].children,
                j <= kids@.len(),
                depth_within(self@.actors, max_depth as int, object_id, depth as int)
                    == children_within(self@.actors, max_depth as int, kids@, depth + 1, j as int),
            decreases kids@.len() - j,
        {
            let checked = self.validate_depth(max_depth, kids[j], depth + 1);
            assert(children_within(self@.actors, max_depth as int, kids@, depth + 1, j as int) == match checked {
                Err(e) => Err(e),
                Ok(()) => children_within(self@.actors, max_depth as int, kids@, depth + 1, j + 1),
            });
            match checked {
                Err(e) => return Err(e),
                Ok(()) => {},
            }
            j = j + 1;
        }
        Ok(())
    }

    /// Check the rehearsed tree against `limits`: the number of roots, that
    /// root names are unique and roots have no parent, the tree depth, and
    /// the children of each live actor.
    pub fn validate_final_tree(&self, limits: &RegistryLimits) -> (r: Result<(), RegistryError>)
        requires
            limits.max_tree_depth < usize::MAX,
        ensures
            r == final_tree_checked(self@, *limits),
    {
        if self.roots.len() > limits.max_roots {
            return Err(RegistryError::Capacity { kind: CapacityKind::Roots });
        }
        let mut k: usize = 0;
        while k < self.roots.len()
            invariant
                limits.max_tree_depth < usize::MAX,
                self@.roots.len() <= limits.max_roots,
                k <= self.roots@.len(),
                self@.roots.len() == self.roots@.len(),
                forall|j: int| 0 <= j < self.roots@.len() ==> #[trigger] self@.roots[j] == (self.roots@[j].0@, self.roots@[j].1),
                roots_checked(self@, limits.max_tree_depth as int, 0) == roots_checked(self@, limits.max_tree_depth as int, k as int),
            decreases self.roots@.len() - k,
        {
            let mut p: usize = 0;
            while p < k
                invariant
                    limits.max_tree_depth < usize::MAX,
                    self@.roots.len() <= limits.max_roots,
                    roots_checked(self@, limits.max_tree_depth as int, 0) == roots_checked(self@, limits.max_tree_depth as int, k as int),
                    k < self.roots@.len(),
                    p <= k,
                    self@.roots.len() == self.roots@.len(),
                    forall|j: int| 0 <= j < self.roots@.len() ==> #[trigger] self@.roots[j] == (self.roots@[j].0@, self.roots@[j].1),
                    forall|q: int| 0 <= q < p ==> #[trigger] self@.roots[q].0 != self@.roots[k as int].0,
                decreases k - p,
            {
                if str_equal(self.roots[p].0.as_str(), self.roots[k].0.as_str()) {
                    assert(self@.roots[p as int].0 == self@.roots[k as int].0);
                    return Err(RegistryError::InvalidParent);
                }
                p = p + 1;
            }
            let root = self.roots[k].1;
            let i = match self.find_live(root) {
                Ok(found) => found,
                Err(e) => return Err(e),
            };
            assert(self@.actors[i as int] == self.actors@[i as int]@);
            if self.actors[i].parent.is_some() {
                return Err(RegistryError::InvalidParent);
            }
            match self.validate_depth(limits.max_tree_depth, root, 1) {
                Err(e) => return Err(e),
                Ok(()) => {},
            }
            k = k + 1;
        }
        let mut i: usize = 0;
        while i < self.actors.len()
            invariant
                self@.roots.len() <= limits.max_roots,
                roots_checked(self@, limits.max_tree_depth as int, 0) == Ok::<(), RegistryError>(()),
                i <= self.actors@.len(),
                self@.actors.len() == self.actors@.len(),
                forall|q: int| 0 <= q < self.actors@.len() ==> #[trigger] self@.actors[q] == self.actors@[q]@,
                forall|q: int| 0 <= q < i ==> !(#[trigger] self@.actors[q].alive
                    && self@.actors[q].children.len() > limits.max_children_per_actor),
            decreases self.actors@.len() - i,
        {
            if self.actors[i].alive && self.actors[i].children.len() > limits.max_children_per_actor {
                assert(self@.actors[i as int].alive);
                return Err(RegistryError::Capacity { kind: CapacityKind::Children });
            }
            i = i + 1;
        }
        Ok(())
    }
}

/// Whether the Stage's slot table holds a live record for `id`.
pub open spec fn slot_holds(slots: Seq<PlannedSlot>, id: ObjectId) -> bool {
    let index = object_slot(id@) - 1;
    &&& 0 <= index < slots.len()
    &&& slots[index] == PlannedSlot::Occupied(id)
}

/// The identifier bound to batch reference `batch_ref` by the first matching
/// earlier Create, searching from `start`.
pub open spec fn binding_from(bindings: Seq<(u16, ObjectId, usize)>, batch_ref: u16, start: int) -> Option<ObjectId>
    decreases bindings.len() - start,
{
    if start < 0 || start >= bindings.len() {
        None
    } else if bindings[start].0 == batch_ref {
        Some(bindings[start].1)
    } else {
        binding_from(bindings, batch_ref, start + 1)
    }
}

/// The actor a batch reference names, checked against the slot table (for a
/// stable identifier), the earlier Creates of the batch (for a batch
/// reference) and the shadow tree.
pub open spec fn resolved_reference(
    reference: BatchObjectReference,
    slots: Seq<PlannedSlot>,
    shadow: ShadowModel,
    bindings: Seq<(u16, ObjectId, usize)>,
) -> Result<ObjectId, RegistryError> {
    match reference {
        BatchObjectReference::Stable(id) => if !slot_holds(slots, id) || first_live(shadow.actors, id) is None {
            Err(RegistryError::StaleObject { object_id: id })
        } else {
            Ok(id)
        },
        BatchObjectReference::EarlierBatch(batch_ref) => if batch_ref == 0 {
            Err(RegistryError::BatchInvalid)
        } else {
            match binding_from(bindings, batch_ref, 0) {
                None => Err(RegistryError::BatchInvalid),
                Some(id) => if first_live(shadow.actors, id) is None {
                    Err(RegistryError::StaleObject { object_id: id })
                } else {
                    Ok(id)
                },
            }
        },
    }
}

/// The Stage direction a batch direction stands for once its references are
/// resolved; a Create has no such direction.
pub open spec fn resolved_direction(
    direction: BatchStageDirection,
    slots: Seq<PlannedSlot>,
    shadow: ShadowModel,
    bindings: Seq<(u16, ObjectId, usize)>,
) -> Result<StageDirection, RegistryError> {
    let resolve = |reference: BatchObjectReference| resolved_reference(reference, slots, shadow, bindings);
    match direction {
        BatchStageDirection::Create(_) => Err(RegistryError::Internal),
        BatchStageDirection::MutateActor { object, directions } => match resolve(object) {
            Err(e) => Err(e),
            Ok(object_id) => Ok(StageDirection::MutateActor { object_id, directions }),
        },
        BatchStageDirection::SetFlag { object, flag, enabled } => match resolve(object) {
            Err(e) => Err(e),
            Ok(object_id) => Ok(StageDirection::SetFlag { object_id, flag, enabled }),
        },
        BatchStageDirection::SetComputedGeometry { object, bounds } => match resolve(object) {
            Err(e) => Err(e),
            Ok(object_id) => Ok(StageDirection::SetComputedGeometry { object_id, bounds }),
        },
        BatchStageDirection::Reparent { object, new_parent, index } => match resolve(object) {
            Err(e) => Err(e),
            Ok(object_id) => match resolve(new_parent) {
                Err(e) => Err(e),
                Ok(parent_id) => Ok(StageDirection::Reparent { object_id, new_parent: parent_id, index }),
            },
        },
        BatchStageDirection::PromoteRoot { object, name, index } => match resolve(object) {
            Err(e) => Err(e),
            Ok(object_id) => Ok(StageDirection::PromoteRoot { object_id, name, index }),
        },
        BatchStageDirection::Reorder { object, index } => match resolve(object) {
            Err(e) => Err(e),
            Ok(object_id) => Ok(StageDirection::Reorder { object_id, index }),
        },
        BatchStageDirection::Delete { object } => match resolve(object) {
            Err(e) => Err(e),
            Ok(object_id) => Ok(StageDirection::Delete { object_id }),
        },
        BatchStageDirection::SetLocalStyle { object, part_id, state_mask, property_id, value } => match resolve(object) {
            Err(e) => Err(e),
            Ok(object_id) => Ok(StageDirection::SetLocalStyle { object_id, part_id, state_mask, property_id, value }),
        },
    }
}

/// Resolve one batch actor reference: a stable identifier must hold a live
/// record in `slots`, a batch reference must name an earlier Create in
/// `bindings`, and either way the actor must be live in `shadow`.
pub fn resolve_atomic_reference(
    reference: BatchObjectReference,
    slots: &[PlannedSlot],
    shadow: &TreeShadow,
    bindings: &[(u16, ObjectId, usize)],
) -> (r: Result<ObjectId, RegistryError>)
    ensures
        r == resolved_reference(reference, slots@, shadow@, bindings@),
{
    match reference {
        BatchObjectReference::Stable(object_id) => {
            let index = object_id.slot_index();
            let recorded = if index < slots.len() {
                match slots[index] {
                    PlannedSlot::Occupied(held) => held == object_id,
                    _ => false,
                }
            } else {
                false
            };
            if !recorded {
                return Err(RegistryError::StaleObject { object_id });
            }
            match shadow.find_live(object_id) {
                Ok(_) => Ok(object_id),
                Err(e) => Err(e),
            }
        },
        BatchObjectReference::EarlierBatch(batch_ref) => {
            if batch_ref == 0 {
                return Err(RegistryError::BatchInvalid);
            }
            let mut k: usize = 0;
            while k < bindings.len()
                invariant
                    batch_ref != 0,
                    reference == BatchObjectReference::EarlierBatch(batch_ref),
                    k <= bindings@.len(),
                    binding_from(bindings@, batch_ref, 0) == binding_from(bindings@, batch_ref, k as int),
                decreases bindings@.len() - k,
            {
                if bindings[k].0 == batch_ref {
                    let object_id = bindings[k].1;
                    return match shadow.find_live(object_id) {
                        Ok(_) => Ok(object_id),
                        Err(e) => Err(e),
                    };
                }
                k = k + 1;
            }
            Err(RegistryError::BatchInvalid)
        },
    }
}

/// The Stage direction a batch direction stands for once each of its actor
/// references is resolved; a Create is not resolved here.
pub fn resolve_atomic_direction(
    direction: BatchStageDirection,
    slots: &[PlannedSlot],
    shadow: &TreeShadow,
    bindings: &[(u16, ObjectId, usize)],
) -> (r: Result<StageDirection, RegistryError>)
    ensures
        r == resolved_direction(direction, slots@, shadow@, bindings@),
{
    match direction {
        BatchStageDirection::Create(_) => Err(RegistryError::Internal),
        BatchStageDirection::MutateActor { object, directions } => match resolve_atomic_reference(object, slots, shadow, bindings) {
            Err(e) => Err(e),
            Ok(object_id) => Ok(StageDirection::MutateActor { object_id, directions }),
        },
        BatchStageDirection::SetFlag { object, flag, enabled } => match resolve_atomic_reference(object, slots, shadow, bindings) {
            Err(e) => Err(e),
            Ok(object_id) => Ok(StageDirection::SetFlag { object_id, flag, enabled }),
        },
        BatchStageDirection::SetComputedGeometry { object, bounds } => match resolve_atomic_reference(object, slots, shadow, bindings) {
            Err(e) => Err(e),
            Ok(object_id) => Ok(StageDirection::SetComputedGeometry { object_id, bounds }),
        },
        BatchStageDirection::Reparent { object, new_parent, index } => match resolve_atomic_reference(object, slots, shadow, bindings) {
            Err(e) => Err(e),
            Ok(object_id) => match resolve_atomic_reference(new_parent, slots, shadow, bindings) {
                Err(e) => Err(e),
                Ok(parent_id) => Ok(StageDirection::Reparent { object_id, new_parent: parent_id, index }),
            },
        },
        BatchStageDirection::PromoteRoot { object, name, index } => match resolve_atomic_reference(object, slots, shadow, bindings) {
            Err(e) => Err(e),
            Ok(object_id) => Ok(StageDirection::PromoteRoot { object_id, name, index }),
        },
        BatchStageDirection::Reorder { object, index } => match resolve_atomic_reference(object, slots, shadow, bindings) {
            Err(e) => Err(e),
            Ok(object_id) => Ok(StageDirection::Reorder { object_id, index }),
        },
        BatchStageDirection::Delete { object } => match resolve_atomic_reference(object, slots, shadow, bindings) {
            Err(e) => Err(e),
            Ok(object_id) => Ok(StageDirection::Delete { object_id }),
        },
        BatchStageDirection::SetLocalStyle { object, part_id, state_mask, property_id, value } => match resolve_atomic_reference(object, slots, shadow, bindings) {
            Err(e) => Err(e),
            Ok(object_id) => Ok(StageDirection::SetLocalStyle { object_id, part_id, state_mask, property_id, value }),
        },
    }
}

} // verus!
