//! What compute passes and ray tracing passes share: error scopes, the
//! recorded pass data, redundant-state filtering, the encoder's lock, the
//! validation of timestamp writes and push constant uploads, and the replay
//! state together with the replay steps that both kinds of pass perform.

use vstd::prelude::*;
use crate::resource::{
    Device, InvalidResourceError, PushConstantRange, QuerySet, QueryType, Registry, ResourceKind,
};

verus! {

/// Number of bind group slots that the state filter and the binder track.
pub const MAX_BIND_GROUPS: usize = 8;

/// The pass operation an error was found in.
#[derive(Clone, Copy, Debug, PartialEq, Eq, Structural)]
pub enum PassErrorScope {
    Pass,
    SetBindGroup,
    SetPipelineCompute,
    SetPipelineRayTracing,
    SetPushConstant,
    Dispatch { indirect: bool },
    TraceRays { indirect: bool },
    PushDebugGroup,
    PopDebugGroup,
    InsertDebugMarker,
    WriteTimestamp,
    BeginPipelineStatisticsQuery,
    EndPipelineStatisticsQuery,
}

/// States of a command encoder.
#[derive(Clone, Copy, Debug, PartialEq, Eq)]
pub enum EncoderStatus {
    /// Commands can be recorded.
    Recording,
    /// A pass is open; the encoder is locked until it ends.
    Locked,
    /// The encoder was finished.
    Finished,
    /// The encoder is invalid, with the error that made it so.
    Error(CommandEncoderError),
}

/// Errors from the encoder's state.
#[derive(Clone, Copy, Debug, PartialEq, Eq, Structural)]
pub enum EncoderStateError {
    /// A pass was begun while another pass is open.
    Locked,
    /// A pass was ended while no pass is open.
    Unlocked,
    /// The encoder was already finished.
    Ended,
    /// The encoder is invalid.
    Invalid,
}

/// Device errors.
#[derive(Clone, Copy, Debug, PartialEq, Eq, Structural)]
pub enum DeviceError {
    /// The device is lost or destroyed.
    Invalid,
    /// A resource belongs to another device than the one it is used with.
    DeviceMismatch { kind: ResourceKind, id: usize },
    /// The backend lost the device while creating a resource.
    Lost,
    /// The backend ran out of memory while creating a resource.
    OutOfMemory,
}

/// Optional features that an operation may require.
#[derive(Clone, Copy, Debug, PartialEq, Eq, Structural)]
pub enum MissingFeature {
    TimestampQuery,
    TimestampQueryInsidePasses,
    RayTracingAccelerationStructure,
    RayHitVertexReturn,
    RayTracingPipelines,
}

/// Errors in the use of queries.
#[derive(Clone, Copy, Debug, PartialEq, Eq, Structural)]
pub enum QueryUseError {
    OutOfBounds { query_index: u32, query_set_size: u32 },
    IncompatibleType { set_type: QueryType, query_type: QueryType },
    AlreadyStarted { active_query_index: u32, new_query_index: u32 },
    AlreadyStopped,
    Device(DeviceError),
}

/// Errors in a push constant upload.
#[derive(Clone, Copy, Debug, PartialEq, Eq, Structural)]
pub enum PushConstantUploadError {
    /// The upload does not fit the range of a stage it names.
    TooLarge { offset: u32, end_offset: u32, idx: usize, range: PushConstantRange },
    /// The upload names some but not all stages of a range.
    PartialRangeMatch { actual: u32, idx: usize, matched: u32 },
    /// The upload overlaps a range but does not name all its stages.
    MissingStages { actual: u32, idx: usize, missing: u32 },
    /// The upload names stages that no range covers.
    UnmatchedStages { actual: u32, unmatched: u32 },
}

/// Errors that any pass command may raise.
#[derive(Clone, Copy, Debug, PartialEq, Eq, Structural)]
pub enum PassError {
    Device(DeviceError),
    MissingFeature(MissingFeature),
    BindGroupIndexOutOfRange { index: u32, max: u32 },
    InvalidPopDebugGroup,
    QueryUse(QueryUseError),
    DestroyedResource { kind: ResourceKind, id: usize },
    MissingPipeline,
    PushConstants(PushConstantUploadError),
}

/// Errors of a command encoder: those found when a pass begins, and those
/// that invalidate the encoder, which its status keeps.
#[derive(Clone, Copy, Debug, PartialEq, Eq)]
pub enum CommandEncoderError {
    State(EncoderStateError),
    MissingFeature(MissingFeature),
    InvalidResource(InvalidResourceError),
    Device(DeviceError),
    QueryUse(QueryUseError),
    /// Both timestamp write indices are the same.
    TimestampWriteIndicesEqual { idx: u32 },
    /// Neither timestamp write index is given.
    TimestampWriteIndicesMissing,
    /// A compute pass failed when it ended.
    ComputePass(crate::compute::ComputePassError),
    /// A ray tracing pass failed when it ended.
    RayTracingPass(crate::ray_tracing_pass::RayTracingPassError),
    /// An acceleration structure build, or the marking of structures as
    /// built, failed.
    BuildAccelerationStructure(crate::acceleration_structure::BuildAccelerationStructureError),
}

/// Where and when timestamps are written for a pass.
#[derive(Clone, Copy, Debug, PartialEq, Eq, Structural)]
pub struct PassTimestampWrites {
    pub query_set: usize,
    pub beginning_of_pass_write_index: Option<u32>,
    pub end_of_pass_write_index: Option<u32>,
}

/// The data recorded for a pass before it is replayed.
pub struct BasePass<C> {
    pub label: Option<String>,
    pub commands: Vec<C>,
    /// The dynamic offsets of all bind group settings, in order.
    pub dynamic_offsets: Vec<u32>,
    /// The bytes of all debug labels, in order.
    pub string_data: Vec<u8>,
    /// The words of all push constant uploads, in order.
    pub push_constant_data: Vec<u32>,
}

impl<C> BasePass<C> {
    /// An empty pass with the given label.
    pub fn new(label: Option<String>) -> (b: BasePass<C>)
        ensures
            b.label == label,
            b.commands@.len() == 0,
            b.dynamic_offsets@.len() == 0,
            b.string_data@.len() == 0,
            b.push_constant_data@.len() == 0,
    {
        BasePass {
            label,
            commands: Vec::new(),
            dynamic_offsets: Vec::new(),
            string_data: Vec::new(),
            push_constant_data: Vec::new(),
        }
    }
}

/// Remembers the last value set, to filter out redundant settings.
#[derive(Clone, Copy, Debug, PartialEq, Eq, Structural)]
pub struct StateChange {
    pub last_state: Option<usize>,
}

impl StateChange {
    /// Nothing set yet.
    pub fn new() -> (s: StateChange)
        ensures
            s.last_state is None,
    {
        StateChange { last_state: None }
    }

    /// Sets `new_state`; returns whether it was already the last value set.
    pub fn set_and_check_redundant(&mut self, new_state: usize) -> (redundant: bool)
        ensures
            redundant == (old(self).last_state == Some(new_state)),
            final(self).last_state == Some(new_state),
    {
        let redundant = match self.last_state {
            Some(s) => s == new_state,
            None => false,
        };
        self.last_state = Some(new_state);
        redundant
    }
}

/// The last bind group set in each slot, to filter out redundant settings.
/// `None` in a slot means nothing is remembered; `Some(None)` that the slot
/// was last set to no bind group.
pub struct BindGroupStateChange {
    pub last_states: Vec<Option<Option<usize>>>,
}

/// What `BindGroupStateChange::set_and_check_redundant` does: the setting is
/// redundant when no offsets are given and the slot's remembered setting is
/// the same; a setting with offsets clears the slot's memory.
pub open spec fn bind_group_set_redundant(
    last: Seq<Option<Option<usize>>>,
    bind_group: Option<usize>,
    index: u32,
    offsets_empty: bool,
) -> bool {
    offsets_empty && index < last.len() && last[index as int] == Some(bind_group)
}

/// The remembered settings after a bind group setting.
pub open spec fn bind_group_states_after(
    last: Seq<Option<Option<usize>>>,
    bind_group: Option<usize>,
    index: u32,
    offsets_empty: bool,
) -> Seq<Option<Option<usize>>> {
    if index >= last.len() {
        last
    } else if offsets_empty {
        last.update(index as int, Some(bind_group))
    } else {
        last.update(index as int, None)
    }
}

impl BindGroupStateChange {
    /// Nothing remembered for any slot.
    pub fn new() -> (s: BindGroupStateChange)
        ensures
            s.last_states@ == Seq::new(MAX_BIND_GROUPS as nat, |i: int| None::<Option<usize>>),
    {
        let mut last_states: Vec<Option<Option<usize>>> = Vec::new();
        let mut i: usize = 0;
        while i < MAX_BIND_GROUPS
            invariant
                i <= MAX_BIND_GROUPS,
                last_states@ == Seq::new(i as nat, |j: int| None::<Option<usize>>),
            decreases MAX_BIND_GROUPS - i,
        {
            last_states.push(None);
            i = i + 1;
        }
        BindGroupStateChange { last_states }
    }

    /// Sets `bind_group` in slot `index`, appending `offsets` to
    /// `dynamic_offsets` when there are some; returns whether the setting is
    /// redundant.
    pub fn set_and_check_redundant(
        &mut self,
        bind_group: Option<usize>,
        index: u32,
        dynamic_offsets: &mut Vec<u32>,
        offsets: &[u32],
    ) -> (redundant: bool)
        ensures
            redundant == bind_group_set_redundant(old(self).last_states@, bind_group, index, offsets@.len() == 0),
            final(self).last_states@ == bind_group_states_after(
                old(self).last_states@,
                bind_group,
                index,
                offsets@.len() == 0,
            ),
            final(dynamic_offsets)@ == old(dynamic_offsets)@ + offsets@,
    {
        if offsets.len() == 0 {
            if (index as usize) < self.last_states.len() {
                let i = index as usize;
                let already = match self.last_states[i] {
                    Some(Some(g)) => match bind_group {
                        Some(b) => g == b,
                        None => false,
                    },
                    Some(None) => bind_group.is_none(),
                    None => false,
                };
                self.last_states.set(i, Some(bind_group));
                if already {
                    assert(offsets@ =~= Seq::<u32>::empty());
                    assert(old(dynamic_offsets)@ + offsets@ =~= old(dynamic_offsets)@);
                    return true;
                }
            }
            assert(old(dynamic_offsets)@ + offsets@ =~= old(dynamic_offsets)@);
        } else {
            if (index as usize) < self.last_states.len() {
                self.last_states.set(index as usize, None);
            }
            dynamic_offsets.extend_from_slice(offsets);
            assert(final(dynamic_offsets)@ =~= old(dynamic_offsets)@ + offsets@);
        }
        false
    }
}

/// Locks the encoder for a pass: allowed only while it records.  Locking a
/// locked encoder invalidates it.
pub open spec fn lock_encoder_spec(status: EncoderStatus) -> (EncoderStatus, Result<(), EncoderStateError>) {
    match status {
        EncoderStatus::Recording => (EncoderStatus::Locked, Ok(())),
        EncoderStatus::Locked => (EncoderStatus::Error(CommandEncoderError::State(EncoderStateError::Locked)), Err(EncoderStateError::Locked)),
        EncoderStatus::Finished => (EncoderStatus::Finished, Err(EncoderStateError::Ended)),
        EncoderStatus::Error(e) => (EncoderStatus::Error(e), Err(EncoderStateError::Invalid)),
    }
}

/// Unlocks the encoder when a pass ends: allowed only while it is locked.
/// Unlocking an encoder that records invalidates it.
pub open spec fn unlock_encoder_spec(status: EncoderStatus) -> (EncoderStatus, Result<(), EncoderStateError>) {
    match status {
        EncoderStatus::Locked => (EncoderStatus::Recording, Ok(())),
        EncoderStatus::Recording => (EncoderStatus::Error(CommandEncoderError::State(EncoderStateError::Unlocked)), Err(EncoderStateError::Unlocked)),
        EncoderStatus::Finished => (EncoderStatus::Finished, Err(EncoderStateError::Ended)),
        EncoderStatus::Error(e) => (EncoderStatus::Error(e), Err(EncoderStateError::Invalid)),
    }
}

/// What recording a command does to the encoder's state before anything is
/// recorded: allowed only while it records; recording into a locked encoder
/// invalidates it.
pub open spec fn record_check_spec(status: EncoderStatus) -> (EncoderStatus, Result<(), EncoderStateError>) {
    match status {
        EncoderStatus::Recording => (EncoderStatus::Recording, Ok(())),
        EncoderStatus::Locked => (EncoderStatus::Error(CommandEncoderError::State(EncoderStateError::Locked)), Err(EncoderStateError::Locked)),
        EncoderStatus::Finished => (EncoderStatus::Finished, Err(EncoderStateError::Ended)),
        EncoderStatus::Error(e) => (EncoderStatus::Error(e), Err(EncoderStateError::Invalid)),
    }
}

/// Beginning a pass on an encoder that records locks it, and ending the
/// pass unlocks it: the encoder records again, which is what ending a pass
/// begun on its recorded commands leaves (see
/// `compute_pass_end_with_unresolved_commands`).
pub proof fn lemma_lock_then_unlock(status: EncoderStatus)
    requires
        status == EncoderStatus::Recording,
    ensures
        lock_encoder_spec(status) == (EncoderStatus::Locked, Ok::<(), EncoderStateError>(())),
        unlock_encoder_spec(lock_encoder_spec(status).0) == (EncoderStatus::Recording, Ok::<(), EncoderStateError>(())),
{
}

/// Locking an encoder that is already locked, or unlocking one that records,
/// invalidates it and keeps the state error.
pub proof fn lemma_misuse_invalidates(status: EncoderStatus)
    ensures
        status == EncoderStatus::Locked ==> lock_encoder_spec(status).0 == EncoderStatus::Error(
            CommandEncoderError::State(EncoderStateError::Locked),
        ),
        status == EncoderStatus::Recording ==> unlock_encoder_spec(status).0 == EncoderStatus::Error(
            CommandEncoderError::State(EncoderStateError::Unlocked),
        ),
        status is Error ==> lock_encoder_spec(status).0 == status && unlock_encoder_spec(status).0 == status,
{
}

/// Applies `record_check_spec`.
pub fn record_check(status: EncoderStatus) -> (r: (EncoderStatus, Result<(), EncoderStateError>))
    ensures
        r == record_check_spec(status),
{
    match status {
        EncoderStatus::Recording => (EncoderStatus::Recording, Ok(())),
        EncoderStatus::Locked => (EncoderStatus::Error(CommandEncoderError::State(EncoderStateError::Locked)), Err(EncoderStateError::Locked)),
        EncoderStatus::Finished => (EncoderStatus::Finished, Err(EncoderStateError::Ended)),
        EncoderStatus::Error(e) => (EncoderStatus::Error(e), Err(EncoderStateError::Invalid)),
    }
}

/// Applies `lock_encoder_spec`.
pub fn lock_encoder(status: EncoderStatus) -> (r: (EncoderStatus, Result<(), EncoderStateError>))
    ensures
        r == lock_encoder_spec(status),
{
    match status {
        EncoderStatus::Recording => (EncoderStatus::Locked, Ok(())),
        EncoderStatus::Locked => (EncoderStatus::Error(CommandEncoderError::State(EncoderStateError::Locked)), Err(EncoderStateError::Locked)),
        EncoderStatus::Finished => (EncoderStatus::Finished, Err(EncoderStateError::Ended)),
        EncoderStatus::Error(e) => (EncoderStatus::Error(e), Err(EncoderStateError::Invalid)),
    }
}

/// Applies `unlock_encoder_spec`.
pub fn unlock_encoder(status: EncoderStatus) -> (r: (EncoderStatus, Result<(), EncoderStateError>))
    ensures
        r == unlock_encoder_spec(status),
{
    match status {
        EncoderStatus::Locked => (EncoderStatus::Recording, Ok(())),
        EncoderStatus::Recording => (EncoderStatus::Error(CommandEncoderError::State(EncoderStateError::Unlocked)), Err(EncoderStateError::Unlocked)),
        EncoderStatus::Finished => (EncoderStatus::Finished, Err(EncoderStateError::Ended)),
        EncoderStatus::Error(e) => (EncoderStatus::Error(e), Err(EncoderStateError::Invalid)),
    }
}

/// Checks one query index against a query set of type `ty`.
pub open spec fn validate_query_spec(qs: QuerySet, ty: QueryType, index: u32) -> Result<(), QueryUseError> {
    if qs.ty != ty {
        Err(QueryUseError::IncompatibleType { set_type: qs.ty, query_type: ty })
    } else if index >= qs.count {
        Err(QueryUseError::OutOfBounds { query_index: index, query_set_size: qs.count })
    } else {
        Ok(())
    }
}

/// Applies `validate_query_spec`.
pub fn validate_query(qs: &QuerySet, ty: QueryType, index: u32) -> (r: Result<(), QueryUseError>)
    ensures
        r == validate_query_spec(*qs, ty, index),
{
    if qs.ty != ty {
        Err(QueryUseError::IncompatibleType { set_type: qs.ty, query_type: ty })
    } else if index >= qs.count {
        Err(QueryUseError::OutOfBounds { query_index: index, query_set_size: qs.count })
    } else {
        Ok(())
    }
}

/// The validation of a pass's timestamp writes on device `device_id`: the
/// device must have the timestamp query feature, the query set must be valid,
/// belong to the device and hold timestamps, each given index must be in it,
/// the two indices must differ and at least one must be given.
pub open spec fn timestamp_writes_check(
    device: Device,
    device_id: usize,
    query_sets: Registry<QuerySet>,
    tw: PassTimestampWrites,
) -> Result<(), CommandEncoderError> {
    if !device.features.timestamp_query {
        Err(CommandEncoderError::MissingFeature(MissingFeature::TimestampQuery))
    } else if !query_sets.is_valid(tw.query_set) {
        Err(CommandEncoderError::InvalidResource(InvalidResourceError { kind: ResourceKind::QuerySet, id: tw.query_set }))
    } else if query_sets.data(tw.query_set).device != device_id {
        Err(CommandEncoderError::Device(DeviceError::DeviceMismatch { kind: ResourceKind::QuerySet, id: tw.query_set }))
    } else if tw.beginning_of_pass_write_index is Some && validate_query_spec(
        query_sets.data(tw.query_set),
        QueryType::Timestamp,
        tw.beginning_of_pass_write_index->0,
    ) is Err {
        Err(CommandEncoderError::QueryUse(validate_query_spec(
            query_sets.data(tw.query_set),
            QueryType::Timestamp,
            tw.beginning_of_pass_write_index->0,
        )->Err_0))
    } else if tw.end_of_pass_write_index is Some && validate_query_spec(
        query_sets.data(tw.query_set),
        QueryType::Timestamp,
        tw.end_of_pass_write_index->0,
    ) is Err {
        Err(CommandEncoderError::QueryUse(validate_query_spec(
            query_sets.data(tw.query_set),
            QueryType::Timestamp,
            tw.end_of_pass_write_index->0,
        )->Err_0))
    } else if tw.beginning_of_pass_write_index is Some && tw.end_of_pass_write_index is Some
        && tw.beginning_of_pass_write_index->0 == tw.end_of_pass_write_index->0 {
        Err(CommandEncoderError::TimestampWriteIndicesEqual { idx: tw.beginning_of_pass_write_index->0 })
    } else if tw.beginning_of_pass_write_index is None && tw.end_of_pass_write_index is None {
        Err(CommandEncoderError::TimestampWriteIndicesMissing)
    } else {
        Ok(())
    }
}

/// Validates a pass's timestamp writes (see `timestamp_writes_check`).
pub fn validate_pass_timestamp_writes(
    device: &Device,
    device_id: usize,
    query_sets: &Registry<QuerySet>,
    tw: &PassTimestampWrites,
) -> (r: Result<PassTimestampWrites, CommandEncoderError>)
    requires
        query_sets.has_id(tw.query_set),
    ensures
        match r {
            Ok(v) => v == *tw && timestamp_writes_check(*device, device_id, *query_sets, *tw) is Ok,
            Err(e) => timestamp_writes_check(*device, device_id, *query_sets, *tw) == Err::<(), _>(e),
        },
{
    if !device.features.timestamp_query {
        return Err(CommandEncoderError::MissingFeature(MissingFeature::TimestampQuery));
    }
    let qs = match query_sets.get(tw.query_set, ResourceKind::QuerySet) {
        Ok(qs) => qs,
        Err(e) => return Err(CommandEncoderError::InvalidResource(e)),
    };
    if qs.device != device_id {
        return Err(CommandEncoderError::Device(DeviceError::DeviceMismatch { kind: ResourceKind::QuerySet, id: tw.query_set }));
    }
    if let Some(idx) = tw.beginning_of_pass_write_index {
        if let Err(e) = validate_query(qs, QueryType::Timestamp, idx) {
            return Err(CommandEncoderError::QueryUse(e));
        }
    }
    if let Some(idx) = tw.end_of_pass_write_index {
        if let Err(e) = validate_query(qs, QueryType::Timestamp, idx) {
            return Err(CommandEncoderError::QueryUse(e));
        }
    }
    if let (Some(begin), Some(end)) = (tw.beginning_of_pass_write_index, tw.end_of_pass_write_index) {
        if begin == end {
            return Err(CommandEncoderError::TimestampWriteIndicesEqual { idx: begin });
        }
    }
    if tw.beginning_of_pass_write_index.is_none() && tw.end_of_pass_write_index.is_none() {
        return Err(CommandEncoderError::TimestampWriteIndicesMissing);
    }
    Ok(*tw)
}

} // verus!
