//! The decisions a Stage takes around a prepared batch and its snapshots:
//! the revision a batch will publish, the guard a commit passes before it
//! mutates anything, and the bounded property projection of a snapshot.
use vstd::prelude::*;
use vstd::utf8::encode_utf8;

use crate::actor::{readback_ok, validate_property_readback, PropertyDescriptor, RegistryError, StageId};
use crate::direction::{OwnedValue, SnapshotProperty, StageRevision};

verus! {

/// The revision a batch prepared at `start` publishes: the next one, or an
/// internal error once revisions are exhausted.
pub fn next_revision(start: StageRevision) -> (r: Result<StageRevision, RegistryError>)
    ensures
        start@ < u64::MAX ==> (r matches Ok(n) && n@ == start@ + 1),
        start@ == u64::MAX ==> r == Err::<StageRevision, RegistryError>(RegistryError::Internal),
{
    let raw = start.get();
    if raw == u64::MAX {
        Err(RegistryError::Internal)
    } else {
        Ok(StageRevision::new(raw + 1))
    }
}

/// Readiness of one prepared Create's constructed actor at commit.
#[derive(Clone, Copy, Debug, PartialEq, Eq, Structural)]
pub enum CreateReadiness {
    /// The constructed actor is no longer held by the batch.
    Missing,
    /// The actor or its node is borrowed elsewhere.
    Busy,
    /// The actor can be published.
    Ready,
}

/// What a Stage knows about itself when a prepared batch is offered.
#[derive(Clone, Copy, Debug, PartialEq, Eq)]
pub struct StageState {
    /// The Stage's identifier.
    pub stage_id: StageId,
    /// Whether the Stage still accepts batches.
    pub active: bool,
    /// Its current revision.
    pub revision: StageRevision,
}

/// What a prepared batch carries, and what the Stage observes of it, when
/// it is offered for commit.
pub struct PreparedCommit {
    /// Stage the batch was prepared for.
    pub stage_id: StageId,
    /// Revision the batch was prepared against.
    pub starting_revision: StageRevision,
    /// Revision the batch publishes.
    pub next_revision: StageRevision,
    /// Whether each prepared actor mutation is still ready to commit.
    pub groups_ready: Vec<bool>,
    /// Readiness of each prepared Create, in order.
    pub creates: Vec<CreateReadiness>,
    /// The geometry captured now, or why it could not be captured; `Ok`
    /// carries whether it equals the geometry seen at preparation.
    pub geometry: Result<bool, RegistryError>,
    /// Outcome of the check made once geometry borrows are released.
    pub preflight: Result<(), RegistryError>,
    /// Whether each prepared style mutation is still current.
    pub styles_current: Vec<bool>,
}

/// The revision a commit publishes, or the first reason it is refused, in
/// this order: another Stage; a closed Stage; a stale batch; a busy actor
/// mutation; each Create, missing or busy; the geometry capture, or changed
/// geometry; the post-geometry preflight; a style mutation gone stale.
pub open spec fn commit_outcome(stage: StageState, p: PreparedCommit) -> Result<StageRevision, RegistryError> {
    if p.stage_id != stage.stage_id {
        Err(RegistryError::InvalidStage)
    } else if !stage.active {
        Err(RegistryError::StageClosed)
    } else if p.starting_revision != stage.revision {
        Err(RegistryError::BatchInvalid)
    } else if exists|i: int| 0 <= i < p.groups_ready@.len() && !#[trigger] p.groups_ready@[i] {
        Err(RegistryError::DispatchBusy)
    } else if exists|i: int| 0 <= i < p.creates@.len() && !(#[trigger] p.creates@[i] is Ready) {
        let i = choose|i: int| 0 <= i < p.creates@.len() && !(#[trigger] p.creates@[i] is Ready) && forall|j: int|
            0 <= j < i ==> p.creates@[j] is Ready;
        if p.creates@[i] is Missing {
            Err(RegistryError::BatchInvalid)
        } else {
            Err(RegistryError::DispatchBusy)
        }
    } else {
        match p.geometry {
            Err(e) => Err(e),
            Ok(false) => Err(RegistryError::BatchInvalid),
            Ok(true) => match p.preflight {
                Err(e) => Err(e),
                Ok(()) => if exists|i: int| 0 <= i < p.styles_current@.len() && !#[trigger] p.styles_current@[i] {
                    Err(RegistryError::DispatchBusy)
                } else {
                    Ok(p.next_revision)
                },
            },
        }
    }
}

/// The guard a prepared batch passes before its commit mutates anything:
/// the revision it publishes, or why it is refused (see [`commit_outcome`]).
#[verifier::loop_isolation(false)]
pub fn commit_check(stage: &StageState, prepared: &PreparedCommit) -> (r: Result<StageRevision, RegistryError>)
    ensures
        r == commit_outcome(*stage, *prepared),
{
    if prepared.stage_id != stage.stage_id {
        return Err(RegistryError::InvalidStage);
    }
    if !stage.active {
        return Err(RegistryError::StageClosed);
    }
    if prepared.starting_revision != stage.revision {
        return Err(RegistryError::BatchInvalid);
    }
    let mut i: usize = 0;
    while i < prepared.groups_ready.len()
        invariant
            i <= prepared.groups_ready@.len(),
            forall|j: int| 0 <= j < i ==> prepared.groups_ready@[j],
        decreases prepared.groups_ready@.len() - i,
    {
        if !prepared.groups_ready[i] {
            assert(!prepared.groups_ready@[i as int]);
            return Err(RegistryError::DispatchBusy);
        }
        i = i + 1;
    }
    let mut i: usize = 0;
    while i < prepared.creates.len()
        invariant
            i <= prepared.creates@.len(),
            forall|j: int| 0 <= j < i ==> prepared.creates@[j] is Ready,
        decreases prepared.creates@.len() - i,
    {
        match prepared.creates[i] {
            CreateReadiness::Ready => {},
            other => {
                proof {
                    let k = choose|k: int| 0 <= k < prepared.creates@.len() && !(#[trigger] prepared.creates@[k] is Ready)
                        && forall|j: int| 0 <= j < k ==> prepared.creates@[j] is Ready;
                    assert(!(prepared.creates@[i as int] is Ready));
                    if k < i {
                        assert(prepared.creates@[k] is Ready);
                    }
                    if k > i {
                        assert(prepared.creates@[i as int] is Ready);
                    }
                }
                return Err(
                    if other == CreateReadiness::Missing {
                        RegistryError::BatchInvalid
                    } else {
                        RegistryError::DispatchBusy
                    },
                );
            },
        }
        i = i + 1;
    }
    match prepared.geometry {
        Err(e) => return Err(e),
        Ok(false) => return Err(RegistryError::BatchInvalid),
        Ok(true) => {},
    }
    if let Err(e) = prepared.preflight {
        return Err(e);
    }
    let mut i: usize = 0;
    while i < prepared.styles_current.len()
        invariant
            i <= prepared.styles_current@.len(),
            forall|j: int| 0 <= j < i ==> prepared.styles_current@[j],
        decreases prepared.styles_current@.len() - i,
    {
        if !prepared.styles_current[i] {
            assert(!prepared.styles_current@[i as int]);
            return Err(RegistryError::DispatchBusy);
        }
        i = i + 1;
    }
    Ok(prepared.next_revision)
}

/// Text bytes a value holds.
pub open spec fn value_text_bytes(v: OwnedValue) -> int {
    match v {
        OwnedValue::Text(s) => encode_utf8(s@).len() as int,
        _ => 0,
    }
}

/// The snapshot of properties `from` on, given `used` text bytes so far:
/// each value read back must fit its descriptor; a value whose text would
/// take the running total past `max_text_bytes` is redacted (and marks the
/// snapshot truncated), while later smaller values may still fit.
pub open spec fn snapshot_from(
    ds: Seq<PropertyDescriptor>,
    vs: Seq<OwnedValue>,
    max_text_bytes: int,
    used: int,
    from: int,
) -> Result<(Seq<SnapshotProperty>, bool), RegistryError>
    decreases ds.len() - from,
{
    if from < 0 || from >= ds.len() {
        Ok((Seq::empty(), false))
    } else if !readback_ok(ds[from], vs[from]) {
        Err(RegistryError::Internal)
    } else {
        let next = used + value_text_bytes(vs[from]);
        let redact = next > max_text_bytes;
        let entry = if redact {
            SnapshotProperty { id: ds[from].id, value: None, redacted: true }
        } else {
            SnapshotProperty { id: ds[from].id, value: Some(vs[from]), redacted: false }
        };
        match snapshot_from(ds, vs, max_text_bytes, if redact { used } else { next }, from + 1) {
            Err(e) => Err(e),
            Ok((rest, t)) => Ok((seq![entry] + rest, redact || t)),
        }
    }
}

/// Project the properties read back from one actor into a snapshot record
/// holding at most `max_text_bytes` of text, returning the entries and
/// whether any value was redacted (see [`snapshot_from`]).
pub fn snapshot_properties(
    descriptors: &[PropertyDescriptor],
    values: Vec<OwnedValue>,
    max_text_bytes: usize,
) -> (r: Result<(Vec<SnapshotProperty>, bool), RegistryError>)
    requires
        values@.len() == descriptors@.len(),
    ensures
        match snapshot_from(descriptors@, values@, max_text_bytes as int, 0, 0) {
            Ok((entries, truncated)) => r matches Ok((v, t)) && v@ == entries && t == truncated,
            Err(e) => r matches Err(x) && x == e,
        },
{
    let ghost vs = values@;
    let mut rest = values;
    let mut out: Vec<SnapshotProperty> = Vec::new();
    let mut used: usize = 0;
    let mut truncated = false;
    let mut i: usize = 0;
    while i < descriptors.len()
        invariant
            vs == values@,
            vs.len() == descriptors@.len(),
            i <= descriptors@.len(),
            rest@ == vs.skip(i as int),
            used <= max_text_bytes,
            snapshot_from(descriptors@, vs, max_text_bytes as int, 0, 0) == match snapshot_from(
                descriptors@,
                vs,
                max_text_bytes as int,
                used as int,
                i as int,
            ) {
                Err(e) => Err(e),
                Ok((tail, t)) => Ok((out@ + tail, truncated || t)),
            },
        decreases descriptors@.len() - i,
    {
        assert(rest@[0] == vs[i as int]);
        let v = rest.remove(0);
        let ghost tail_before = snapshot_from(descriptors@, vs, max_text_bytes as int, used as int, i as int);
        let value = match validate_property_readback(&descriptors[i], v) {
            Ok(value) => value,
            Err(e) => {
                assert(tail_before == Err::<(Seq<SnapshotProperty>, bool), RegistryError>(RegistryError::Internal));
                return Err(e);
            },
        };
        let size: usize = match &value {
            OwnedValue::Text(s) => s.as_str().as_bytes().len(),
            _ => 0,
        };
        let redact = size > max_text_bytes - used;
        let ghost next = used + value_text_bytes(value);
        let entry = if redact {
            truncated = true;
            SnapshotProperty { id: descriptors[i].id, value: None, redacted: true }
        } else {
            used = used + size;
            SnapshotProperty { id: descriptors[i].id, value: Some(value), redacted: false }
        };
        let ghost out_before = out@;
        out.push(entry);
        proof {
            assert(out@ =~= out_before + seq![entry]);
            match snapshot_from(descriptors@, vs, max_text_bytes as int, used as int, i + 1) {
                Err(_) => {},
                Ok((tail, _)) => {
                    assert(out_before + (seq![entry] + tail) =~= out@ + tail);
                },
            }
        }
        i = i + 1;
        assert(rest@ =~= vs.skip(i as int));
    }
    proof {
        assert(out@ + Seq::<SnapshotProperty>::empty() =~= out@);
    }
    Ok((out, truncated))
}

} // verus!
