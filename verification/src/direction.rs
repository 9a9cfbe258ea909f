//! Stage revisions, owned introspection values and geometry results.
use vstd::prelude::*;

use crate::actor::{ObjectId, TypeId};
use crate::widget::Rect;

verus! {

/// Monotonic committed revision of one Stage.
#[derive(Clone, Copy, Debug, Default, PartialEq, Eq, Structural, PartialOrd, Ord, Hash)]
pub struct StageRevision(u64);

impl View for StageRevision {
    type V = u64;

    closed spec fn view(&self) -> u64 {
        self.0
    }
}

impl StageRevision {
    /// Construct a revision from its serialized value.
    pub fn new(raw: u64) -> (r: Self)
        ensures
            r@ == raw,
    {
        StageRevision(raw)
    }

    /// Return the serialized `u64` representation.
    pub fn get(self) -> (r: u64)
        ensures
            r == self@,
    {
        self.0
    }

    /// Return the following revision, or `None` when the space is exhausted.
    pub(crate) fn next(self) -> (r: Option<Self>)
        ensures
            r is None <==> self@ == u64::MAX,
            r matches Some(n) ==> n@ == self@ + 1,
    {
        if self.0 == u64::MAX { None } else { Some(StageRevision(self.0 + 1)) }
    }
}

/// Owned runtime value used by introspection and directions.
#[derive(Clone, Debug, PartialEq)]
pub enum OwnedValue {
    /// No value.
    Nothing,
    /// Boolean value.
    Bool(bool),
    /// Signed 32-bit value.
    I32(i32),
    /// Unsigned 32-bit value.
    U32(u32),
    /// Signed 64-bit value.
    I64(i64),
    /// Unsigned 64-bit value.
    U64(u64),
    /// Fixed-point precise value.
    Precise(i32),
    /// Packed colour value.
    Color(u32),
    /// Logical point.
    Point {
        /// Horizontal coordinate.
        x: i32,
        /// Vertical coordinate.
        y: i32,
    },
    /// Logical size.
    Size {
        /// Width.
        width: i32,
        /// Height.
        height: i32,
    },
    /// Logical rectangle.
    Rect {
        /// Left edge.
        x: i32,
        /// Top edge.
        y: i32,
        /// Width.
        width: i32,
        /// Height.
        height: i32,
    },
    /// Registered enum value.
    Enum {
        /// Enum domain.
        domain: u32,
        /// Enum value.
        value: u32,
    },
    /// Owned UTF-8 text.
    Text(String),
    /// Owned bytes.
    Bytes(Vec<u8>),
    /// Object reference.
    Object(u64),
    /// Resource reference.
    Resource {
        /// Resource kind.
        kind: u32,
        /// Resource identifier.
        id: u64,
    },
    /// Batch-local object reference.
    BatchObject(u16),
}

/// Stable wire tag of a runtime value.
#[derive(Clone, Copy, Debug, PartialEq, Eq, Structural)]
pub enum ValueTag {
    /// No value.
    Nothing,
    /// Boolean value.
    Bool,
    /// Signed 32-bit value.
    I32,
    /// Unsigned 32-bit value.
    U32,
    /// Signed 64-bit value.
    I64,
    /// Unsigned 64-bit value.
    U64,
    /// Fixed-point precise value.
    Precise,
    /// Packed colour value.
    Color,
    /// Logical point.
    Point,
    /// Logical size.
    Size,
    /// Logical rectangle.
    Rect,
    /// Registered enum value.
    Enum,
    /// UTF-8 text.
    Text,
    /// Bytes.
    Bytes,
    /// Object reference.
    Object,
    /// Resource reference.
    Resource,
    /// Batch-local object reference.
    BatchObject,
}

/// The wire tag of `v`.
pub open spec fn owned_tag(v: OwnedValue) -> ValueTag {
    match v {
        OwnedValue::Nothing => ValueTag::Nothing,
        OwnedValue::Bool(_) => ValueTag::Bool,
        OwnedValue::I32(_) => ValueTag::I32,
        OwnedValue::U32(_) => ValueTag::U32,
        OwnedValue::I64(_) => ValueTag::I64,
        OwnedValue::U64(_) => ValueTag::U64,
        OwnedValue::Precise(_) => ValueTag::Precise,
        OwnedValue::Color(_) => ValueTag::Color,
        OwnedValue::Point { .. } => ValueTag::Point,
        OwnedValue::Size { .. } => ValueTag::Size,
        OwnedValue::Rect { .. } => ValueTag::Rect,
        OwnedValue::Enum { .. } => ValueTag::Enum,
        OwnedValue::Text(_) => ValueTag::Text,
        OwnedValue::Bytes(_) => ValueTag::Bytes,
        OwnedValue::Object(_) => ValueTag::Object,
        OwnedValue::Resource { .. } => ValueTag::Resource,
        OwnedValue::BatchObject(_) => ValueTag::BatchObject,
    }
}

impl OwnedValue {
    /// Return the stable wire tag for this value.
    pub fn tag(&self) -> (r: ValueTag)
        ensures
            r == owned_tag(*self),
    {
        match self {
            OwnedValue::Nothing => ValueTag::Nothing,
            OwnedValue::Bool(_) => ValueTag::Bool,
            OwnedValue::I32(_) => ValueTag::I32,
            OwnedValue::U32(_) => ValueTag::U32,
            OwnedValue::I64(_) => ValueTag::I64,
            OwnedValue::U64(_) => ValueTag::U64,
            OwnedValue::Precise(_) => ValueTag::Precise,
            OwnedValue::Color(_) => ValueTag::Color,
            OwnedValue::Point { .. } => ValueTag::Point,
            OwnedValue::Size { .. } => ValueTag::Size,
            OwnedValue::Rect { .. } => ValueTag::Rect,
            OwnedValue::Enum { .. } => ValueTag::Enum,
            OwnedValue::Text(_) => ValueTag::Text,
            OwnedValue::Bytes(_) => ValueTag::Bytes,
            OwnedValue::Object(_) => ValueTag::Object,
            OwnedValue::Resource { .. } => ValueTag::Resource,
            OwnedValue::BatchObject(_) => ValueTag::BatchObject,
        }
    }
}

/// A node's current participation in object-managed layout.
#[derive(Clone, Copy, Debug, PartialEq, Eq, Structural)]
pub enum GeometryRole {
    /// No active layout role.
    Inactive,
    /// Actor runs a layout engine over its children.
    Container,
    /// Actor carries parent-consumed item hints.
    Item,
}

/// Read-only geometry result, separate from requested layout.
#[derive(Clone, Copy, Debug, PartialEq, Eq, Structural)]
pub struct GeometryResult {
    /// Native widget bounds before object-managed placement.
    pub intrinsic_bounds: Rect,
    /// Canonical object-managed bounds.
    pub effective_bounds: Rect,
    /// Stage revision at which both values were read.
    pub revision: StageRevision,
    /// Current object-managed layout participation.
    pub layout_role: GeometryRole,
}

/// Opaque handle for the single snapshot cursor.
#[derive(Clone, Copy, Debug, PartialEq, Eq, Structural)]
pub struct SnapshotToken(pub(crate) u32);

/// One property projected into a snapshot.
#[derive(Clone, Debug, PartialEq)]
pub struct SnapshotProperty {
    /// Descriptor property identifier.
    pub id: u32,
    /// Value when it fit in the bounded record budget.
    pub value: Option<OwnedValue>,
    /// Whether the value was explicitly omitted due to the bound.
    pub redacted: bool,
}

/// Stable or earlier batch-local actor reference used by an atomic Stage batch.
#[derive(Clone, Copy, Debug, PartialEq, Eq, Structural)]
pub enum BatchObjectReference {
    /// Generation-checked actor already published in the Stage.
    Stable(ObjectId),
    /// Raw nonzero binding produced by an earlier Create in this batch.
    EarlierBatch(u16),
}

/// One owned constructor-only field supplied to an atomic Create.
#[derive(Clone, Debug, PartialEq)]
pub struct CreateField {
    /// Descriptor-local constructor field identifier.
    pub id: u32,
    /// Owned neutral constructor value.
    pub value: OwnedValue,
}

/// Append-only destination of one atomic Create operation.
#[derive(Clone, Debug, PartialEq, Eq)]
pub enum BatchCreateDestination {
    /// Append a uniquely named Stage root.
    Root {
        /// Stage-owned root name.
        name: String,
    },
    /// Append a child of a stable or earlier batch-created parent.
    Child {
        /// Parent reference resolved during batch validation.
        parent: BatchObjectReference,
    },
}

/// One atomic Create operation of a Stage batch.
#[derive(Clone, Debug, PartialEq)]
pub struct CreateDirection {
    /// Nonzero batch-local binding for later operations.
    pub batch_ref: u16,
    /// Registered actor type to construct.
    pub type_id: TypeId,
    /// Where the new actor is attached.
    pub destination: BatchCreateDestination,
    /// Constructor-only fields.
    pub fields: Vec<CreateField>,
}

/// One actor-local mutation of a Stage batch.
#[derive(Clone, Debug, PartialEq)]
pub enum ActorDirection {
    /// Set a writable property.
    SetProperty {
        /// Descriptor-local property identifier.
        id: u32,
        /// New owned value.
        value: OwnedValue,
    },
    /// Reset a property to its descriptor default.
    ResetProperty {
        /// Descriptor-local property identifier.
        id: u32,
    },
    /// Invoke an action with owned arguments.
    InvokeAction {
        /// Descriptor-local action identifier.
        id: u32,
        /// Owned action arguments.
        arguments: Vec<OwnedValue>,
    },
}

/// Mathematical model of an [`ActorDirection`].
pub enum DirectionView {
    /// Set a writable property.
    SetProperty {
        /// Descriptor-local property identifier.
        id: u32,
        /// New owned value.
        value: OwnedValue,
    },
    /// Reset a property to its descriptor default.
    ResetProperty {
        /// Descriptor-local property identifier.
        id: u32,
    },
    /// Invoke an action with owned arguments.
    InvokeAction {
        /// Descriptor-local action identifier.
        id: u32,
        /// Owned action arguments.
        arguments: Seq<OwnedValue>,
    },
}

impl View for ActorDirection {
    type V = DirectionView;

    open spec fn view(&self) -> DirectionView {
        match self {
            ActorDirection::SetProperty { id, value } => DirectionView::SetProperty { id: *id, value: *value },
            ActorDirection::ResetProperty { id } => DirectionView::ResetProperty { id: *id },
            ActorDirection::InvokeAction { id, arguments } => DirectionView::InvokeAction { id: *id, arguments: arguments@ },
        }
    }
}

/// The models of a sequence of actor directions.
pub open spec fn direction_views(ds: Seq<ActorDirection>) -> Seq<DirectionView> {
    ds.map_values(|d: ActorDirection| d@)
}

/// Runtime object flag addressable by a Stage direction.
#[derive(Clone, Copy, Debug, PartialEq, Eq, Structural)]
pub enum RuntimeFlag {
    /// The object is hidden.
    Hidden,
    /// The object accepts input.
    Enabled,
    /// The object reacts to clicks.
    Clickable,
    /// The object can take focus.
    Focusable,
}

/// One atomic stage command addressed to the actor tree.
///
/// Requested-layout replacement is carried by the layout engine's own
/// configuration types, which this crate does not hold; the remaining
/// commands are listed here.
#[derive(Clone, Debug, PartialEq)]
pub enum StageDirection {
    /// Apply one or more actor-local property/action transitions collectively.
    MutateActor {
        /// Target actor.
        object_id: ObjectId,
        /// Collectively validated actor-local directions.
        directions: Vec<ActorDirection>,
    },
    /// Set a descriptor-gated runtime flag.
    SetFlag {
        /// Target actor.
        object_id: ObjectId,
        /// Runtime-owned flag.
        flag: RuntimeFlag,
        /// Requested semantic value.
        enabled: bool,
    },
    /// Attempt to write computed geometry; always rejected as read-only.
    SetComputedGeometry {
        /// Target actor.
        object_id: ObjectId,
        /// Rejected replacement geometry.
        bounds: Rect,
    },
    /// Reparent an actor as a child at an exact ordered index.
    Reparent {
        /// Actor subtree root to move.
        object_id: ObjectId,
        /// Destination parent.
        new_parent: ObjectId,
        /// Exact final child index.
        index: usize,
    },
    /// Promote or move an actor into the named-root order.
    PromoteRoot {
        /// Actor subtree root to promote.
        object_id: ObjectId,
        /// Unique stage-root name.
        name: String,
        /// Exact final root index.
        index: usize,
    },
    /// Reorder an actor within its current parent or root order.
    Reorder {
        /// Actor to reorder.
        object_id: ObjectId,
        /// Exact final sibling/root index.
        index: usize,
    },
    /// Delete an actor and its subtree.
    Delete {
        /// Root of the subtree to delete.
        object_id: ObjectId,
    },
    /// Local style addressing is reserved but not implemented by this slice.
    SetLocalStyle {
        /// Target actor.
        object_id: ObjectId,
        /// Independent part selector.
        part_id: u32,
        /// Independent native state mask.
        state_mask: u32,
        /// Stable style property identifier.
        property_id: u32,
        /// Replacement local value.
        value: OwnedValue,
    },
}

/// One atomic Stage operation whose actor references may name earlier Creates.
///
/// Vector order is the submitted zero-based operation index. Requested-layout
/// replacement is carried by the layout engine's own configuration types,
/// which this crate does not hold.
#[derive(Clone, Debug, PartialEq)]
pub enum BatchStageDirection {
    /// Construct and append one actor without publishing it before commit.
    Create(CreateDirection),
    /// Apply one or more actor-local property/action transitions collectively.
    MutateActor {
        /// Stable or earlier-created target actor.
        object: BatchObjectReference,
        /// Collectively validated actor-local directions.
        directions: Vec<ActorDirection>,
    },
    /// Set a descriptor-gated runtime flag.
    SetFlag {
        /// Stable or earlier-created target actor.
        object: BatchObjectReference,
        /// Runtime-owned flag.
        flag: RuntimeFlag,
        /// Requested semantic value.
        enabled: bool,
    },
    /// Attempt to write computed geometry; always rejected as read-only.
    SetComputedGeometry {
        /// Stable or earlier-created target actor.
        object: BatchObjectReference,
        /// Rejected replacement geometry.
        bounds: Rect,
    },
    /// Reparent an actor subtree at one exact ordered index.
    Reparent {
        /// Stable or earlier-created subtree root.
        object: BatchObjectReference,
        /// Stable or earlier-created destination parent.
        new_parent: BatchObjectReference,
        /// Exact final child index.
        index: usize,
    },
    /// Promote or move an actor into the named-root order.
    PromoteRoot {
        /// Stable or earlier-created subtree root.
        object: BatchObjectReference,
        /// Unique Stage-root name.
        name: String,
        /// Exact final root index.
        index: usize,
    },
    /// Reorder an actor within its current parent or root order.
    Reorder {
        /// Stable or earlier-created actor.
        object: BatchObjectReference,
        /// Exact final sibling/root index.
        index: usize,
    },
    /// Delete an existing actor and its subtree.
    Delete {
        /// Stable or earlier-created subtree root.
        object: BatchObjectReference,
    },
    /// Local style addressing remains explicitly unsupported in this slice.
    SetLocalStyle {
        /// Stable or earlier-created target actor.
        object: BatchObjectReference,
        /// Independent part selector.
        part_id: u32,
        /// Independent native state mask.
        state_mask: u32,
        /// Stable style property identifier.
        property_id: u32,
        /// Replacement local value.
        value: OwnedValue,
    },
}

} // verus!
