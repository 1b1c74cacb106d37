//! Ray tracing passes: recording commands into a pass, and replaying a
//! recorded pass into its encoder with validation.

use vstd::prelude::*;
use crate::resource::ExclusivePipeline;
use vstd::string::StringSliceAdditionalSpecFns;
use crate::global::Global;
use crate::pass::{
    BasePass, BindGroupStateChange, CommandEncoderError, EncoderStateError, PassError, PassErrorScope,
    PassTimestampWrites, StateChange, PushConstantUploadError, lock_encoder, lock_encoder_spec, timestamp_writes_check,
    validate_pass_timestamp_writes, bind_group_set_redundant, bind_group_states_after, MAX_BIND_GROUPS,
};
use crate::resource::{InvalidResourceError, ResourceKind, PUSH_CONSTANT_ALIGNMENT};
use crate::raw::{RawCommand, SbtRegion};
use crate::resource::RayTracingPipeline;
use crate::pass::{EncoderStatus, DeviceError, unlock_encoder, unlock_encoder_spec};
use crate::replay::{
    LateBindingMismatch, late_mismatch_report,
    ReplayView, ReplayState, StepResult, initial_view, stepped, set_bind_group_step, push_debug_group_step,
    pop_debug_group_step, insert_debug_marker_step, write_timestamp_step, begin_statistics_step, end_statistics_step,
    rebind_actions, first_incompatible, push_constant_upload_check,
};
use crate::words::{push_constant_words, words_from_bytes};
use crate::compute::size_as_u32;

verus! {

/// Describes a ray tracing pass.
pub struct RayTracingPassDescriptor {
    pub label: Option<String>,
    /// Where and when timestamp values are written for this pass.
    pub timestamp_writes: Option<PassTimestampWrites>,
}

/// Errors of a ray trace.
#[derive(Clone, Copy, Debug, PartialEq, Eq)]
pub enum TraceRaysError {
    /// No ray tracing pipeline is set.
    MissingPipeline,
    /// The bind group in the slot does not match the pipeline's layout.
    IncompatibleBindGroup { index: u32 },
    /// The pipeline linked to a TLAS is not the pipeline that is set.
    MismatchedRayTracingPipelines { linked: usize, set: usize },
    /// A dimension of the ray count is over the device limit for it.
    InvalidGroupSize { current: [u32; 3], limit: [u32; 3] },
    /// A late-sized buffer binding is bound with less than the shader needs.
    BindingSizeTooSmall(LateBindingMismatch),
}

/// Error encountered when performing a ray tracing pass.
#[derive(Clone, Copy, Debug, PartialEq, Eq)]
pub enum RayTracingPassErrorInner {
    EncoderState(EncoderStateError),
    GeneralPass(PassError),
    InvalidParentEncoder,
    UnalignedIndirectBufferOffset(u64),
    IndirectBufferOverrun { offset: u64, end_offset: u64, buffer_size: u64 },
    MissingBufferUsage { buffer: usize, actual: u32, expected: u32 },
    TraceRays(TraceRaysError),
    PushConstants(PushConstantUploadError),
    PushConstantOffsetAlignment,
    PushConstantSizeAlignment,
    PushConstantOutOfMemory,
    MissingDownlevelFlags,
    PassEnded,
    InvalidResource(InvalidResourceError),
}

/// Error encountered when performing a ray tracing pass, with the operation
/// it was found in.
#[derive(Clone, Copy, Debug, PartialEq, Eq)]
pub struct RayTracingPassError {
    pub scope: PassErrorScope,
    pub inner: RayTracingPassErrorInner,
}

/// A command recorded into a ray tracing pass.
#[derive(Clone, Copy, Debug, PartialEq, Eq)]
pub enum ArcRayTracingCommand {
    SetBindGroup { index: u32, num_dynamic_offsets: usize, bind_group: Option<usize> },
    SetPipeline(usize),
    /// Upload of `size_bytes` bytes of push constants for `stages` at byte
    /// `offset`, whose values start at word `values_offset` of the pass's
    /// push constant data.
    SetPushConstant { stages: u32, offset: u32, size_bytes: u32, values_offset: u32 },
    TraceRays([u32; 3]),
    TraceRaysIndirect { buffer: usize, offset: u64 },
    PushDebugGroup { len: usize },
    PopDebugGroup,
    InsertDebugMarker { len: usize },
    WriteTimestamp { query_set: usize, query_index: u32 },
    BeginPipelineStatisticsQuery { query_set: usize, query_index: u32 },
    EndPipelineStatisticsQuery,
}

/// A ray tracing pass being recorded.
pub struct RayTracingPass {
    /// The recorded data; `None` once the pass has ended.
    pub base: Option<BasePass<ArcRayTracingCommand>>,
    /// The encoder the pass records into; `None` for an invalid pass.
    pub parent: Option<usize>,
    pub timestamp_writes: Option<PassTimestampWrites>,
    /// Filters redundant bind group settings.
    pub current_bind_groups: BindGroupStateChange,
    /// Filters redundant pipeline settings.
    pub current_pipeline: StateChange,
}

/// An error found by a pass operation.
pub open spec fn pass_err(scope: PassErrorScope, inner: RayTracingPassErrorInner) -> RayTracingPassError {
    RayTracingPassError { scope, inner }
}

impl RayTracingPass {
    /// A pass freshly made by `RayTracingPass::new`.
    pub open spec fn is_fresh(self, parent: Option<usize>, label: Option<String>, tw: Option<PassTimestampWrites>) -> bool {
        &&& self.base is Some
        &&& self.base->0.label == label
        &&& self.base->0.commands@.len() == 0
        &&& self.base->0.dynamic_offsets@.len() == 0
        &&& self.base->0.string_data@.len() == 0
        &&& self.base->0.push_constant_data@.len() == 0
        &&& self.parent == parent
        &&& self.timestamp_writes == tw
        &&& self.current_bind_groups.last_states@ == Seq::new(MAX_BIND_GROUPS as nat, |i: int| None::<Option<usize>>)
        &&& self.current_pipeline.last_state is None
    }

    /// `new` is `self` with `cmd` recorded, `strings` appended to the label
    /// bytes and `words` to the push constant data; nothing else changes.
    pub open spec fn records(self, new: RayTracingPass, cmd: ArcRayTracingCommand, strings: Seq<u8>, words: Seq<u32>) -> bool {
        &&& self.base is Some
        &&& new.base is Some
        &&& new.base->0.commands@ == self.base->0.commands@.push(cmd)
        &&& new.base->0.string_data@ == self.base->0.string_data@ + strings
        &&& new.base->0.push_constant_data@ == self.base->0.push_constant_data@ + words
        &&& new.base->0.dynamic_offsets@ == self.base->0.dynamic_offsets@
        &&& new.base->0.label == self.base->0.label
        &&& new.parent == self.parent
        &&& new.timestamp_writes == self.timestamp_writes
        &&& new.current_bind_groups.last_states@ == self.current_bind_groups.last_states@
        &&& new.current_pipeline == self.current_pipeline
    }

    /// Makes a pass recording into `parent`; with no parent the pass is invalid.
    pub fn new(parent: Option<usize>, desc: RayTracingPassDescriptor) -> (p: RayTracingPass)
        ensures
            p.is_fresh(parent, desc.label, desc.timestamp_writes),
    {
        let RayTracingPassDescriptor { label, timestamp_writes } = desc;
        RayTracingPass {
            base: Some(BasePass::new(label)),
            parent,
            timestamp_writes,
            current_bind_groups: BindGroupStateChange::new(),
            current_pipeline: StateChange::new(),
        }
    }

    /// The pass's label, while the pass has not ended.
    pub fn label(&self) -> (r: Option<&str>)
        ensures
            r is Some <==> (self.base is Some && self.base->0.label is Some),
            r is Some ==> r->0@ == self.base->0.label->0@,
    {
        match &self.base {
            Some(base) => match &base.label {
                Some(l) => Some(l.as_str()),
                None => None,
            },
            None => None,
        }
    }

    /// Records `cmd`, appending `strings` to the label bytes.  Fails in
    /// `scope` with `InvalidParentEncoder` for an invalid pass (one without a
    /// parent encoder), and with `PassEnded` when the pass has ended.
    fn record(&mut self, scope: PassErrorScope, cmd: ArcRayTracingCommand, strings: &[u8]) -> (r: Result<(), RayTracingPassError>)
        ensures
            old(self).parent is None ==> r == Err::<(), _>(pass_err(scope, RayTracingPassErrorInner::InvalidParentEncoder))
                && *final(self) == *old(self),
            old(self).parent is Some && old(self).base is None ==> r == Err::<(), _>(pass_err(scope, RayTracingPassErrorInner::PassEnded))
                && *final(self) == *old(self),
            old(self).parent is Some && old(self).base is Some ==> r is Ok && old(self).records(*final(self), cmd, strings@, Seq::empty()),
    {
        if self.parent.is_none() {
            return Err(RayTracingPassError { scope, inner: RayTracingPassErrorInner::InvalidParentEncoder });
        }
        match &mut self.base {
            Some(base) => {
                base.commands.push(cmd);
                base.string_data.extend_from_slice(strings);
                assert(base.string_data@ =~= old(self).base->0.string_data@ + strings@);
                assert(base.push_constant_data@ =~= old(self).base->0.push_constant_data@ + Seq::<u32>::empty());
                Ok(())
            },
            None => Err(RayTracingPassError { scope, inner: RayTracingPassErrorInner::PassEnded }),
        }
    }
}

impl Global {
    /// Begins a ray tracing pass on encoder `encoder_id`.
    ///
    /// The encoder is locked first; if it cannot be, the pass is invalid (it
    /// has no parent) and the lock error is returned.  Then the timestamp
    /// writes are validated; if they are not valid the pass is invalid and the
    /// encoder stays locked.
    pub fn command_encoder_begin_ray_tracing_pass(&mut self, encoder_id: usize, desc: &RayTracingPassDescriptor) -> (r: (
        RayTracingPass,
        Option<CommandEncoderError>,
    ))
        requires
            old(self).well_formed(),
            encoder_id < old(self).command_buffers@.len(),
            desc.timestamp_writes is Some ==> old(self).query_sets.has_id(desc.timestamp_writes->0.query_set),
        ensures
            ({
                let cb = old(self).command_buffers@[encoder_id as int];
                let (status, lock) = lock_encoder_spec(cb.status);
                let device = old(self).devices@[cb.device as int];
                &&& final(self).command_buffers@ == old(self).command_buffers@.update(
                    encoder_id as int,
                    crate::global::CommandBuffer { status, ..cb },
                )
                &&& final(self).same_resources(*old(self))
                &&& final(self).ray_tracing_pass_invariant(r.0)
                &&& if lock is Err {
                    r.0.is_fresh(None, desc.label, None) && r.1 == Some(CommandEncoderError::State(lock->Err_0))
                } else if desc.timestamp_writes is Some && timestamp_writes_check(
                    device,
                    cb.device,
                    old(self).query_sets,
                    desc.timestamp_writes->0,
                ) is Err {
                    r.0.is_fresh(None, desc.label, None) && r.1 == Some(
                        timestamp_writes_check(device, cb.device, old(self).query_sets, desc.timestamp_writes->0)->Err_0,
                    )
                } else {
                    r.0.is_fresh(Some(encoder_id), desc.label, desc.timestamp_writes) && r.1 is None
                }
            }),
    {
        let label = match &desc.label {
            Some(l) => Some(l.clone()),
            None => None,
        };
        let device_id = self.command_buffers[encoder_id].device;
        let (status, lock) = lock_encoder(self.command_buffers[encoder_id].status);
        self.set_encoder_status(encoder_id, status);
        if let Err(e) = lock {
            let pass = RayTracingPass::new(None, RayTracingPassDescriptor { label, timestamp_writes: None });
            return (pass, Some(CommandEncoderError::State(e)));
        }
        let timestamp_writes = match &desc.timestamp_writes {
            Some(tw) => match validate_pass_timestamp_writes(&self.devices[device_id], device_id, &self.query_sets, tw) {
                Ok(v) => Some(v),
                Err(e) => {
                    let pass = RayTracingPass::new(None, RayTracingPassDescriptor { label, timestamp_writes: None });
                    return (pass, Some(e));
                },
            },
            None => None,
        };
        (RayTracingPass::new(Some(encoder_id), RayTracingPassDescriptor { label, timestamp_writes }), None)
    }

    /// Records the setting of bind group slot `index` to `bind_group_id`
    /// (or to no bind group), with the dynamic offsets `offsets`.
    ///
    /// Once the pass has not ended, the redundancy filter is updated and the
    /// offsets are stored even when the setting is then dropped as redundant
    /// or fails on an invalid bind group.
    pub fn ray_tracing_pass_set_bind_group(
        &self,
        pass: &mut RayTracingPass,
        index: u32,
        bind_group_id: Option<usize>,
        offsets: &[u32],
    ) -> (r: Result<(), RayTracingPassError>)
        requires
            bind_group_id is Some ==> self.bind_groups.has_id(bind_group_id->0),
        ensures
            old(pass).parent is None ==> r == Err::<(), _>(pass_err(PassErrorScope::SetBindGroup, RayTracingPassErrorInner::InvalidParentEncoder))
                && *final(pass) == *old(pass),
            old(pass).parent is Some && old(pass).base is None ==> r == Err::<(), _>(pass_err(PassErrorScope::SetBindGroup, RayTracingPassErrorInner::PassEnded))
                && *final(pass) == *old(pass),
            old(pass).parent is Some && old(pass).base is Some ==> {
                let redundant = bind_group_set_redundant(
                    old(pass).current_bind_groups.last_states@,
                    bind_group_id,
                    index,
                    offsets@.len() == 0,
                );
                let invalid = bind_group_id is Some && !self.bind_groups.is_valid(bind_group_id->0);
                &&& final(pass).base is Some
                &&& final(pass).current_bind_groups.last_states@ == bind_group_states_after(
                    old(pass).current_bind_groups.last_states@,
                    bind_group_id,
                    index,
                    offsets@.len() == 0,
                )
                &&& final(pass).base->0.dynamic_offsets@ == old(pass).base->0.dynamic_offsets@ + offsets@
                &&& final(pass).base->0.string_data@ == old(pass).base->0.string_data@
                &&& final(pass).base->0.push_constant_data@ == old(pass).base->0.push_constant_data@
                &&& final(pass).base->0.label == old(pass).base->0.label
                &&& final(pass).parent == old(pass).parent
                &&& final(pass).timestamp_writes == old(pass).timestamp_writes
                &&& final(pass).current_pipeline == old(pass).current_pipeline
                &&& if redundant {
                    r is Ok && final(pass).base->0.commands@ == old(pass).base->0.commands@
                } else if invalid {
                    r == Err::<(), _>(pass_err(
                        PassErrorScope::SetBindGroup,
                        RayTracingPassErrorInner::InvalidResource(
                            InvalidResourceError { kind: ResourceKind::BindGroup, id: bind_group_id->0 },
                        ),
                    )) && final(pass).base->0.commands@ == old(pass).base->0.commands@
                } else {
                    r is Ok && final(pass).base->0.commands@ == old(pass).base->0.commands@.push(
                        ArcRayTracingCommand::SetBindGroup { index, num_dynamic_offsets: offsets@.len() as usize, bind_group: bind_group_id },
                    )
                }
            },
            self.ray_tracing_pass_invariant(*old(pass)) ==> self.ray_tracing_pass_invariant(*final(pass)),
    {
        let scope = PassErrorScope::SetBindGroup;
        if pass.parent.is_none() {
            return Err(RayTracingPassError { scope: scope, inner: RayTracingPassErrorInner::InvalidParentEncoder });
        }
        let ghost mut recorded: Option<ArcRayTracingCommand> = None;
        let r = match &mut pass.base {
            None => Err(RayTracingPassError { scope, inner: RayTracingPassErrorInner::PassEnded }),
            Some(base) => {
                let redundant = pass.current_bind_groups.set_and_check_redundant(
                    bind_group_id,
                    index,
                    &mut base.dynamic_offsets,
                    offsets,
                );
                if redundant {
                    Ok(())
                } else {
                    let invalid = match bind_group_id {
                        Some(id) => match self.bind_groups.get(id, ResourceKind::BindGroup) {
                            Err(e) => Some(e),
                            Ok(_) => None,
                        },
                        None => None,
                    };
                    match invalid {
                        Some(e) => Err(RayTracingPassError { scope, inner: RayTracingPassErrorInner::InvalidResource(e) }),
                        None => {
                            let cmd = ArcRayTracingCommand::SetBindGroup {
                                index,
                                num_dynamic_offsets: offsets.len(),
                                bind_group: bind_group_id,
                            };
                            base.commands.push(cmd);
                            proof { recorded = Some(cmd); }
                            Ok(())
                        },
                    }
                }
            },
        };
        proof {
            if self.ray_tracing_pass_invariant(*old(pass)) && old(pass).base is Some {
                lemma_ray_tracing_set_bind_group_keeps_invariant(*self, *old(pass), *pass, offsets@, recorded);
            }
        }
        r
    }

    /// Records the setting of the ray tracing pipeline `pipeline_id`.
    ///
    /// The redundancy filter is updated first, even when the pass has ended;
    /// a redundant setting is dropped once the pass is known not to have ended.
    pub fn ray_tracing_pass_set_pipeline(&self, pass: &mut RayTracingPass, pipeline_id: usize) -> (r: Result<
        (),
        RayTracingPassError,
    >)
        requires
            self.ray_tracing_pipelines.has_id(pipeline_id),
        ensures
            old(pass).parent is Some ==> final(pass).current_pipeline.last_state == Some(pipeline_id),
            old(pass).parent is None ==> r == Err::<(), _>(pass_err(
                PassErrorScope::SetPipelineRayTracing, RayTracingPassErrorInner::InvalidParentEncoder))
                && *final(pass) == *old(pass),
            old(pass).parent is Some && old(pass).base is None ==> r == Err::<(), _>(pass_err(
                PassErrorScope::SetPipelineRayTracing, RayTracingPassErrorInner::PassEnded,
            )) && final(pass).base == old(pass).base,
            old(pass).parent is Some && old(pass).base is Some ==> {
                let redundant = old(pass).current_pipeline.last_state == Some(pipeline_id);
                let kept = RayTracingPass { current_pipeline: final(pass).current_pipeline, ..*old(pass) };
                if redundant {
                    r is Ok && *final(pass) == kept
                } else if !self.ray_tracing_pipelines.is_valid(pipeline_id) {
                    r == Err::<(), _>(pass_err(
                        PassErrorScope::SetPipelineRayTracing,
                        RayTracingPassErrorInner::InvalidResource(
                            InvalidResourceError { kind: ResourceKind::RayTracingPipeline, id: pipeline_id },
                        ),
                    )) && *final(pass) == kept
                } else {
                    r is Ok && kept.records(*final(pass), ArcRayTracingCommand::SetPipeline(pipeline_id), Seq::empty(), Seq::empty())
                }
            },
            final(pass).parent == old(pass).parent,
            final(pass).timestamp_writes == old(pass).timestamp_writes,
            final(pass).current_bind_groups.last_states@ == old(pass).current_bind_groups.last_states@,
            self.ray_tracing_pass_invariant(*old(pass)) ==> self.ray_tracing_pass_invariant(*final(pass)),
    {
        if pass.parent.is_none() {
            return Err(RayTracingPassError { scope: PassErrorScope::SetPipelineRayTracing, inner: RayTracingPassErrorInner::InvalidParentEncoder });
        }
        let redundant = pass.current_pipeline.set_and_check_redundant(pipeline_id);
        let scope = PassErrorScope::SetPipelineRayTracing;
        if pass.base.is_none() {
            return Err(RayTracingPassError { scope, inner: RayTracingPassErrorInner::PassEnded });
        }
        if redundant {
            return Ok(());
        }
        if let Err(e) = self.ray_tracing_pipelines.get(pipeline_id, ResourceKind::RayTracingPipeline) {
            return Err(RayTracingPassError { scope, inner: RayTracingPassErrorInner::InvalidResource(e) });
        }
        let ghost kept = *pass;
        let r = pass.record(scope, ArcRayTracingCommand::SetPipeline(pipeline_id), &[]);
        proof {
            if self.ray_tracing_pass_invariant(*old(pass)) {
                assert(self.ray_tracing_pass_invariant(kept));
                lemma_ray_tracing_record_keeps_invariant(*self, kept, *pass, ArcRayTracingCommand::SetPipeline(pipeline_id), Seq::empty(), Seq::empty());
            }
        }
        r
    }

    /// Records an upload of the push constant bytes `data` for `stages` at
    /// byte `offset`.  The offset and the size (as `u32`) must be multiples of
    /// four, and the upload must end within `u32` (else
    /// `PushConstantOutOfMemory`, as when the pass's push constant data is
    /// full); the bytes are stored as words in the machine's byte order.
    pub fn ray_tracing_pass_set_push_constants(
        &self,
        pass: &mut RayTracingPass,
        stages: u32,
        offset: u32,
        data: &[u8],
    ) -> (r: Result<(), RayTracingPassError>)
        ensures
            ({
                let scope = PassErrorScope::SetPushConstant;
                if old(pass).parent is None {
                    r == Err::<(), _>(pass_err(scope, RayTracingPassErrorInner::InvalidParentEncoder)) && *final(pass) == *old(pass)
                } else if old(pass).parent is None {
                    r == Err::<(), _>(pass_err(scope, RayTracingPassErrorInner::InvalidParentEncoder)) && *final(pass) == *old(pass)
                } else if old(pass).base is None {
                    r == Err::<(), _>(pass_err(scope, RayTracingPassErrorInner::PassEnded)) && *final(pass) == *old(pass)
                } else if offset % PUSH_CONSTANT_ALIGNMENT != 0 {
                    r == Err::<(), _>(pass_err(scope, RayTracingPassErrorInner::PushConstantOffsetAlignment))
                        && *final(pass) == *old(pass)
                } else if size_as_u32(data@.len() as usize) % PUSH_CONSTANT_ALIGNMENT != 0 {
                    r == Err::<(), _>(pass_err(scope, RayTracingPassErrorInner::PushConstantSizeAlignment))
                        && *final(pass) == *old(pass)
                } else if old(pass).base->0.push_constant_data@.len() > u32::MAX || offset + size_as_u32(data@.len() as usize)
                    > u32::MAX {
                    r == Err::<(), _>(pass_err(scope, RayTracingPassErrorInner::PushConstantOutOfMemory))
                        && *final(pass) == *old(pass)
                } else {
                    &&& r is Ok
                    &&& exists|words: Seq<u32>| #[trigger] push_constant_words(data@, words)
                        && old(pass).records(
                        *final(pass),
                        ArcRayTracingCommand::SetPushConstant {
                            stages,
                            offset,
                            size_bytes: size_as_u32(data@.len() as usize),
                            values_offset: old(pass).base->0.push_constant_data@.len() as u32,
                        },
                        Seq::empty(),
                        words,
                    )
                }
            }),
            self.ray_tracing_pass_invariant(*old(pass)) ==> self.ray_tracing_pass_invariant(*final(pass)),
    {
        let scope = PassErrorScope::SetPushConstant;
        if pass.parent.is_none() {
            return Err(RayTracingPassError { scope: scope, inner: RayTracingPassErrorInner::InvalidParentEncoder });
        }
        let ghost mut recorded: Option<(ArcRayTracingCommand, Seq<u32>)> = None;
        let r = match &mut pass.base {
            None => Err(RayTracingPassError { scope, inner: RayTracingPassErrorInner::PassEnded }),
            Some(base) => {
                assert(offset & 3 == 0 <==> offset % 4 == 0) by (bit_vector);
                let dl = data.len();
                #[verifier::truncate]
                let size_bytes = dl as u32;
                assert(size_bytes == size_as_u32(data@.len() as usize));
                assert(size_bytes & 3 == 0 <==> size_bytes % 4 == 0) by (bit_vector);
                assert(size_bytes as usize <= dl) by (bit_vector)
                    requires
                        size_bytes == #[verifier::truncate] (dl as u32),
                ;
                if offset & (PUSH_CONSTANT_ALIGNMENT - 1) != 0 {
                    Err(RayTracingPassError { scope, inner: RayTracingPassErrorInner::PushConstantOffsetAlignment })
                } else if size_bytes & (PUSH_CONSTANT_ALIGNMENT - 1) != 0 {
                    Err(RayTracingPassError { scope, inner: RayTracingPassErrorInner::PushConstantSizeAlignment })
                } else if base.push_constant_data.len() > u32::MAX as usize || offset as u64 + size_bytes as u64 > u32::MAX as u64 {
                    Err(RayTracingPassError { scope, inner: RayTracingPassErrorInner::PushConstantOutOfMemory })
                } else {
                    let values_offset = base.push_constant_data.len() as u32;
                    let mut words = words_from_bytes(data);
                    let ghost w = words@;
                    base.push_constant_data.append(&mut words);
                    let cmd = ArcRayTracingCommand::SetPushConstant { stages, offset, size_bytes, values_offset };
                    base.commands.push(cmd);
                    assert(base.string_data@ =~= old(pass).base->0.string_data@ + Seq::<u8>::empty());
                    proof { recorded = Some((cmd, w)); }
                    Ok(())
                }
            },
        };
        proof {
            if self.ray_tracing_pass_invariant(*old(pass)) && recorded is Some {
                let (cmd, w) = recorded->0;
                lemma_ray_tracing_record_keeps_invariant(*self, *old(pass), *pass, cmd, Seq::empty(), w);
            }
        }
        r
    }

    /// Records a trace of `groups_x * groups_y * groups_z` rays.
    pub fn ray_tracing_pass_trace_rays(
        &self,
        pass: &mut RayTracingPass,
        groups_x: u32,
        groups_y: u32,
        groups_z: u32,
    ) -> (r: Result<(), RayTracingPassError>)
        ensures
            old(pass).parent is None ==> r == Err::<(), _>(pass_err(
                PassErrorScope::TraceRays { indirect: false }, RayTracingPassErrorInner::InvalidParentEncoder))
                && *final(pass) == *old(pass),
            old(pass).parent is Some && old(pass).base is None ==> r == Err::<(), _>(pass_err(
                PassErrorScope::TraceRays { indirect: false }, RayTracingPassErrorInner::PassEnded,
            )) && *final(pass) == *old(pass),
            old(pass).parent is Some && old(pass).base is Some ==> r is Ok && old(pass).records(
                *final(pass),
                ArcRayTracingCommand::TraceRays([groups_x, groups_y, groups_z]),
                Seq::empty(),
                Seq::empty(),
            ),
            self.ray_tracing_pass_invariant(*old(pass)) ==> self.ray_tracing_pass_invariant(*final(pass)),
    {
        let cmd = ArcRayTracingCommand::TraceRays([groups_x, groups_y, groups_z]);
        let r = pass.record(PassErrorScope::TraceRays { indirect: false }, cmd, &[]);
        proof {
            if self.ray_tracing_pass_invariant(*old(pass)) && r is Ok {
                lemma_ray_tracing_record_keeps_invariant(*self, *old(pass), *pass, cmd, Seq::empty(), Seq::empty());
            }
        }
        r
    }

    /// Records an indirect trace reading its ray counts from `buffer_id` at
    /// `offset`.  The buffer is looked up before the pass is checked, and
    /// both errors are reported in the direct trace's scope.
    pub fn ray_tracing_pass_trace_rays_indirect(&self, pass: &mut RayTracingPass, buffer_id: usize, offset: u64) -> (r:
        Result<(), RayTracingPassError>)
        requires
            self.buffers.has_id(buffer_id),
        ensures
            ({
                let scope = PassErrorScope::TraceRays { indirect: false };
                if !self.buffers.is_valid(buffer_id) {
                    r == Err::<(), _>(pass_err(
                        scope,
                        RayTracingPassErrorInner::InvalidResource(InvalidResourceError { kind: ResourceKind::Buffer, id: buffer_id }),
                    )) && *final(pass) == *old(pass)
                } else if old(pass).parent is None {
                    r == Err::<(), _>(pass_err(scope, RayTracingPassErrorInner::InvalidParentEncoder)) && *final(pass) == *old(pass)
                } else if old(pass).base is None {
                    r == Err::<(), _>(pass_err(scope, RayTracingPassErrorInner::PassEnded)) && *final(pass) == *old(pass)
                } else {
                    r is Ok && old(pass).records(
                        *final(pass),
                        ArcRayTracingCommand::TraceRaysIndirect { buffer: buffer_id, offset },
                        Seq::empty(),
                        Seq::empty(),
                    )
                }
            }),
            self.ray_tracing_pass_invariant(*old(pass)) ==> self.ray_tracing_pass_invariant(*final(pass)),
    {
        let scope = PassErrorScope::TraceRays { indirect: false };
        if let Err(e) = self.buffers.get(buffer_id, ResourceKind::Buffer) {
            return Err(RayTracingPassError { scope, inner: RayTracingPassErrorInner::InvalidResource(e) });
        }
        let cmd = ArcRayTracingCommand::TraceRaysIndirect { buffer: buffer_id, offset };
        let r = pass.record(scope, cmd, &[]);
        proof {
            if self.ray_tracing_pass_invariant(*old(pass)) && r is Ok {
                lemma_ray_tracing_record_keeps_invariant(*self, *old(pass), *pass, cmd, Seq::empty(), Seq::empty());
            }
        }
        r
    }

    /// Records the opening of a debug group labelled `label`.
    pub fn ray_tracing_pass_push_debug_group(&self, pass: &mut RayTracingPass, label: &str, _color: u32) -> (r: Result<
        (),
        RayTracingPassError,
    >)
        ensures
            old(pass).parent is None ==> r == Err::<(), _>(pass_err(PassErrorScope::PushDebugGroup, RayTracingPassErrorInner::InvalidParentEncoder))
                && *final(pass) == *old(pass),
            old(pass).parent is Some && old(pass).base is None ==> r == Err::<(), _>(pass_err(PassErrorScope::PushDebugGroup, RayTracingPassErrorInner::PassEnded))
                && *final(pass) == *old(pass),
            old(pass).parent is Some && old(pass).base is Some ==> r is Ok && old(pass).records(
                *final(pass),
                ArcRayTracingCommand::PushDebugGroup { len: label.spec_bytes().len() as usize },
                label.spec_bytes(),
                Seq::empty(),
            ),
            self.ray_tracing_pass_invariant(*old(pass)) ==> self.ray_tracing_pass_invariant(*final(pass)),
    {
        let bytes = label.as_bytes();
        let r = pass.record(PassErrorScope::PushDebugGroup, ArcRayTracingCommand::PushDebugGroup { len: bytes.len() }, bytes);
        proof {
            if self.ray_tracing_pass_invariant(*old(pass)) && r is Ok {
                lemma_ray_tracing_record_keeps_invariant(*self, *old(pass), *pass, ArcRayTracingCommand::PushDebugGroup { len: bytes@.len() as usize }, bytes@, Seq::empty());
            }
        }
        r
    }

    /// Records the closing of the innermost debug group.
    pub fn ray_tracing_pass_pop_debug_group(&self, pass: &mut RayTracingPass) -> (r: Result<(), RayTracingPassError>)
        ensures
            old(pass).parent is None ==> r == Err::<(), _>(pass_err(PassErrorScope::PopDebugGroup, RayTracingPassErrorInner::InvalidParentEncoder))
                && *final(pass) == *old(pass),
            old(pass).parent is Some && old(pass).base is None ==> r == Err::<(), _>(pass_err(PassErrorScope::PopDebugGroup, RayTracingPassErrorInner::PassEnded))
                && *final(pass) == *old(pass),
            old(pass).parent is Some && old(pass).base is Some ==> r is Ok && old(pass).records(
                *final(pass),
                ArcRayTracingCommand::PopDebugGroup,
                Seq::empty(),
                Seq::empty(),
            ),
            self.ray_tracing_pass_invariant(*old(pass)) ==> self.ray_tracing_pass_invariant(*final(pass)),
    {
        let r = pass.record(PassErrorScope::PopDebugGroup, ArcRayTracingCommand::PopDebugGroup, &[]);
        proof {
            if self.ray_tracing_pass_invariant(*old(pass)) && r is Ok {
                lemma_ray_tracing_record_keeps_invariant(*self, *old(pass), *pass, ArcRayTracingCommand::PopDebugGroup, Seq::empty(), Seq::empty());
            }
        }
        r
    }

    /// Records a debug marker labelled `label`.
    pub fn ray_tracing_pass_insert_debug_marker(&self, pass: &mut RayTracingPass, label: &str, _color: u32) -> (r: Result<
        (),
        RayTracingPassError,
    >)
        ensures
            old(pass).parent is None ==> r == Err::<(), _>(pass_err(PassErrorScope::InsertDebugMarker, RayTracingPassErrorInner::InvalidParentEncoder))
                && *final(pass) == *old(pass),
            old(pass).parent is Some && old(pass).base is None ==> r == Err::<(), _>(pass_err(PassErrorScope::InsertDebugMarker, RayTracingPassErrorInner::PassEnded))
                && *final(pass) == *old(pass),
            old(pass).parent is Some && old(pass).base is Some ==> r is Ok && old(pass).records(
                *final(pass),
                ArcRayTracingCommand::InsertDebugMarker { len: label.spec_bytes().len() as usize },
                label.spec_bytes(),
                Seq::empty(),
            ),
            self.ray_tracing_pass_invariant(*old(pass)) ==> self.ray_tracing_pass_invariant(*final(pass)),
    {
        let bytes = label.as_bytes();
        let r = pass.record(PassErrorScope::InsertDebugMarker, ArcRayTracingCommand::InsertDebugMarker { len: bytes.len() }, bytes);
        proof {
            if self.ray_tracing_pass_invariant(*old(pass)) && r is Ok {
                lemma_ray_tracing_record_keeps_invariant(*self, *old(pass), *pass, ArcRayTracingCommand::InsertDebugMarker { len: bytes@.len() as usize }, bytes@, Seq::empty());
            }
        }
        r
    }

    /// Records a timestamp write into query `query_index` of `query_set_id`.
    pub fn ray_tracing_pass_write_timestamp(&self, pass: &mut RayTracingPass, query_set_id: usize, query_index: u32) -> (r:
        Result<(), RayTracingPassError>)
        requires
            self.query_sets.has_id(query_set_id),
        ensures
            self.rt_query_command_recorded(
                *old(pass),
                *final(pass),
                r,
                PassErrorScope::WriteTimestamp,
                query_set_id,
                ArcRayTracingCommand::WriteTimestamp { query_set: query_set_id, query_index },
            ),
            self.ray_tracing_pass_invariant(*old(pass)) ==> self.ray_tracing_pass_invariant(*final(pass)),
    {
        self.rt_record_query_command(
            pass,
            PassErrorScope::WriteTimestamp,
            query_set_id,
            ArcRayTracingCommand::WriteTimestamp { query_set: query_set_id, query_index },
        )
    }

    /// Records the beginning of pipeline statistics query `query_index` of `query_set_id`.
    pub fn ray_tracing_pass_begin_pipeline_statistics_query(
        &self,
        pass: &mut RayTracingPass,
        query_set_id: usize,
        query_index: u32,
    ) -> (r: Result<(), RayTracingPassError>)
        requires
            self.query_sets.has_id(query_set_id),
        ensures
            self.rt_query_command_recorded(
                *old(pass),
                *final(pass),
                r,
                PassErrorScope::BeginPipelineStatisticsQuery,
                query_set_id,
                ArcRayTracingCommand::BeginPipelineStatisticsQuery { query_set: query_set_id, query_index },
            ),
            self.ray_tracing_pass_invariant(*old(pass)) ==> self.ray_tracing_pass_invariant(*final(pass)),
    {
        self.rt_record_query_command(
            pass,
            PassErrorScope::BeginPipelineStatisticsQuery,
            query_set_id,
            ArcRayTracingCommand::BeginPipelineStatisticsQuery { query_set: query_set_id, query_index },
        )
    }

    /// Records the end of the active pipeline statistics query.
    pub fn ray_tracing_pass_end_pipeline_statistics_query(&self, pass: &mut RayTracingPass) -> (r: Result<(), RayTracingPassError>)
        ensures
            old(pass).parent is None ==> r == Err::<(), _>(pass_err(
                PassErrorScope::EndPipelineStatisticsQuery, RayTracingPassErrorInner::InvalidParentEncoder))
                && *final(pass) == *old(pass),
            old(pass).parent is Some && old(pass).base is None ==> r == Err::<(), _>(pass_err(
                PassErrorScope::EndPipelineStatisticsQuery, RayTracingPassErrorInner::PassEnded,
            )) && *final(pass) == *old(pass),
            old(pass).parent is Some && old(pass).base is Some ==> r is Ok && old(pass).records(
                *final(pass),
                ArcRayTracingCommand::EndPipelineStatisticsQuery,
                Seq::empty(),
                Seq::empty(),
            ),
            self.ray_tracing_pass_invariant(*old(pass)) ==> self.ray_tracing_pass_invariant(*final(pass)),
    {
        let r = pass.record(PassErrorScope::EndPipelineStatisticsQuery, ArcRayTracingCommand::EndPipelineStatisticsQuery, &[]);
        proof {
            if self.ray_tracing_pass_invariant(*old(pass)) && r is Ok {
                lemma_ray_tracing_record_keeps_invariant(*self, *old(pass), *pass, ArcRayTracingCommand::EndPipelineStatisticsQuery, Seq::empty(), Seq::empty());
            }
        }
        r
    }

    /// What recording a command that names a query set does: fail when the
    /// pass has ended, then when the query set is invalid; else record `cmd`.
    pub open spec fn rt_query_command_recorded(
        &self,
        old_pass: RayTracingPass,
        new_pass: RayTracingPass,
        r: Result<(), RayTracingPassError>,
        scope: PassErrorScope,
        query_set_id: usize,
        cmd: ArcRayTracingCommand,
    ) -> bool {
        if old_pass.parent is None {
            r == Err::<(), _>(pass_err(scope, RayTracingPassErrorInner::InvalidParentEncoder)) && new_pass == old_pass
        } else if old_pass.base is None {
            r == Err::<(), _>(pass_err(scope, RayTracingPassErrorInner::PassEnded)) && new_pass == old_pass
        } else if !self.query_sets.is_valid(query_set_id) {
            r == Err::<(), _>(pass_err(
                scope,
                RayTracingPassErrorInner::InvalidResource(InvalidResourceError { kind: ResourceKind::QuerySet, id: query_set_id }),
            )) && new_pass == old_pass
        } else {
            r is Ok && old_pass.records(new_pass, cmd, Seq::empty(), Seq::empty())
        }
    }

    fn rt_record_query_command(&self, pass: &mut RayTracingPass, scope: PassErrorScope, query_set_id: usize, cmd: ArcRayTracingCommand) -> (r:
        Result<(), RayTracingPassError>)
        requires
            self.query_sets.has_id(query_set_id),
            cmd is WriteTimestamp || cmd is BeginPipelineStatisticsQuery,
            cmd matches ArcRayTracingCommand::WriteTimestamp { query_set, query_index: _ } ==> query_set == query_set_id,
            cmd matches ArcRayTracingCommand::BeginPipelineStatisticsQuery { query_set, query_index: _ } ==> query_set == query_set_id,
        ensures
            self.rt_query_command_recorded(*old(pass), *final(pass), r, scope, query_set_id, cmd),
            self.ray_tracing_pass_invariant(*old(pass)) ==> self.ray_tracing_pass_invariant(*final(pass)),
    {
        if pass.parent.is_none() {
            return Err(RayTracingPassError { scope: scope, inner: RayTracingPassErrorInner::InvalidParentEncoder });
        }
        if pass.base.is_none() {
            return Err(RayTracingPassError { scope, inner: RayTracingPassErrorInner::PassEnded });
        }
        if let Err(e) = self.query_sets.get(query_set_id, ResourceKind::QuerySet) {
            return Err(RayTracingPassError { scope, inner: RayTracingPassErrorInner::InvalidResource(e) });
        }
        let r = pass.record(scope, cmd, &[]);
        proof {
            if self.ray_tracing_pass_invariant(*old(pass)) && r is Ok {
                lemma_ray_tracing_record_keeps_invariant(*self, *old(pass), *pass, cmd, Seq::empty(), Seq::empty());
            }
        }
        r
    }
}


/// Why a trace cannot run: no pipeline, or a slot of the pipeline's layout
/// without a matching bind group.
pub open spec fn trace_rays_readiness(g: Global, s: ReplayView) -> Result<(), TraceRaysError> {
    match s.pipeline {
        None => Err(TraceRaysError::MissingPipeline),
        Some(p) => {
            let layouts = g.pipeline_layouts.data(g.ray_tracing_pipelines.data(p).layout).bind_group_layouts@;
            match first_incompatible(g, s.bound, layouts, ExclusivePipeline::RayTracing(p), layouts.len()) {
                Some(i) => Err(TraceRaysError::IncompatibleBindGroup { index: i as u32 }),
                None => match late_mismatch_report(
                    g,
                    s.bound,
                    g.ray_tracing_pipelines.data(p).late_sized_buffer_groups@.map_values(|v: Vec<u64>| v@),
                ) {
                    Some(m) => Err(TraceRaysError::BindingSizeTooSmall(m)),
                    None => Ok(()),
                },
            }
        },
    }
}

/// The ray generation, miss and hit regions of a pipeline's shader binding
/// table: one record each for ray generation and miss, and one per hit group.
pub open spec fn sbt_regions(p: RayTracingPipeline) -> (SbtRegion, SbtRegion, SbtRegion) {
    let d = p.shader_binding_data;
    (
        SbtRegion { table: d.buffer, offset: d.ray_generation_offset, count: 1 },
        SbtRegion { table: d.buffer, offset: d.ray_miss_offset, count: 1 },
        SbtRegion { table: d.buffer, offset: d.ray_hit_offset, count: p.num_hit_groups },
    )
}

/// Returns `sbt_regions(*p)`.
fn shader_binding_regions(p: &RayTracingPipeline) -> (r: (SbtRegion, SbtRegion, SbtRegion))
    ensures
        r == sbt_regions(*p),
{
    let d = p.shader_binding_data;
    (
        SbtRegion { table: d.buffer, offset: d.ray_generation_offset, count: 1 },
        SbtRegion { table: d.buffer, offset: d.ray_miss_offset, count: 1 },
        SbtRegion { table: d.buffer, offset: d.ray_hit_offset, count: p.num_hit_groups },
    )
}

/// The largest ray count of each dimension on the device: the workgroup size
/// limit of the dimension times the workgroup count limit.
pub open spec fn trace_rays_limits(device: crate::resource::Device) -> [u32; 3] {
    let per_dim = device.limits.max_compute_workgroups_per_dimension;
    [
        (device.limits.max_compute_workgroup_size_x * per_dim) as u32,
        (device.limits.max_compute_workgroup_size_y * per_dim) as u32,
        (device.limits.max_compute_workgroup_size_z * per_dim) as u32,
    ]
}

/// Replaying one ray tracing command.
pub open spec fn ray_tracing_step(g: Global, dev: usize, s: ReplayView, cmd: ArcRayTracingCommand) -> StepResult<RayTracingPassError> {
    let device = g.devices@[dev as int];
    match cmd {
        ArcRayTracingCommand::SetBindGroup { index, num_dynamic_offsets, bind_group } =>
            match set_bind_group_step(g, dev, s, index, num_dynamic_offsets, bind_group) {
                Ok(r) => Ok(r),
                Err(e) => Err(pass_err(PassErrorScope::SetBindGroup, RayTracingPassErrorInner::GeneralPass(e))),
            },
        ArcRayTracingCommand::SetPipeline(p) => {
            let pl = g.ray_tracing_pipelines.data(p);
            if pl.device != dev {
                Err(pass_err(
                    PassErrorScope::SetPipelineRayTracing,
                    RayTracingPassErrorInner::GeneralPass(PassError::Device(DeviceError::DeviceMismatch { kind: ResourceKind::RayTracingPipeline, id: p })),
                ))
            } else if s.layout == Some(pl.layout) {
                Ok((ReplayView { pipeline: Some(p), ..s }, seq![RawCommand::SetRayTracingPipeline { pipeline: p }]))
            } else {
                let layout = g.pipeline_layouts.data(pl.layout);
                Ok((
                    ReplayView { pipeline: Some(p), layout: Some(pl.layout), ..s },
                    seq![RawCommand::SetRayTracingPipeline { pipeline: p }] + rebind_actions(s.bound, layout.bind_group_layouts@.len()),
                ))
            }
        },
        ArcRayTracingCommand::SetPushConstant { stages, offset, size_bytes, values_offset } => {
            let scope = PassErrorScope::SetPushConstant;
            match s.layout {
                None => Err(pass_err(scope, RayTracingPassErrorInner::GeneralPass(PassError::MissingPipeline))),
                Some(l) => match push_constant_upload_check(
                    g.pipeline_layouts.data(l).push_constant_ranges@,
                    stages,
                    offset,
                    (offset + size_bytes) as u32,
                ) {
                    Err(e) => Err(pass_err(scope, RayTracingPassErrorInner::GeneralPass(PassError::PushConstants(e)))),
                    Ok(_) => Ok((s, seq![RawCommand::SetPushConstants {
                        stages,
                        byte_offset: offset,
                        values_start: values_offset as usize,
                        values_len: (size_bytes / PUSH_CONSTANT_ALIGNMENT) as usize,
                    }])),
                },
            }
        },
        ArcRayTracingCommand::TraceRays(count) => {
            let scope = PassErrorScope::TraceRays { indirect: false };
            let limit = trace_rays_limits(device);
            if trace_rays_readiness(g, s) is Err {
                Err(pass_err(scope, RayTracingPassErrorInner::TraceRays(trace_rays_readiness(g, s)->Err_0)))
            } else if count[0] > limit[0] || count[1] > limit[1] || count[2] > limit[2] {
                Err(pass_err(scope, RayTracingPassErrorInner::TraceRays(TraceRaysError::InvalidGroupSize { current: count, limit })))
            } else {
                let (gen, miss, hit) = sbt_regions(g.ray_tracing_pipelines.data(s.pipeline->0));
                Ok((s, seq![RawCommand::TraceRays { count, ray_generation: gen, ray_miss: miss, ray_hit: hit }]))
            }
        },
        ArcRayTracingCommand::TraceRaysIndirect { buffer, offset } => {
            let scope = PassErrorScope::TraceRays { indirect: true };
            if trace_rays_readiness(g, s) is Err {
                Err(pass_err(scope, RayTracingPassErrorInner::TraceRays(trace_rays_readiness(g, s)->Err_0)))
            } else if g.buffers.data(buffer).destroyed {
                Err(pass_err(scope, RayTracingPassErrorInner::GeneralPass(PassError::DestroyedResource { kind: ResourceKind::Buffer, id: buffer })))
            } else {
                let (gen, miss, hit) = sbt_regions(g.ray_tracing_pipelines.data(s.pipeline->0));
                Ok((s, seq![RawCommand::TraceRaysIndirect { buffer, offset, ray_generation: gen, ray_miss: miss, ray_hit: hit }]))
            }
        },
        ArcRayTracingCommand::PushDebugGroup { len } => Ok(push_debug_group_step(s, len)),
        ArcRayTracingCommand::PopDebugGroup => match pop_debug_group_step(s) {
            Ok(r) => Ok(r),
            Err(e) => Err(pass_err(PassErrorScope::PopDebugGroup, RayTracingPassErrorInner::GeneralPass(e))),
        },
        ArcRayTracingCommand::InsertDebugMarker { len } => Ok(insert_debug_marker_step(s, len)),
        ArcRayTracingCommand::WriteTimestamp { query_set, query_index } => match write_timestamp_step(g, dev, s, query_set, query_index) {
            Ok(r) => Ok(r),
            Err(e) => Err(pass_err(PassErrorScope::WriteTimestamp, RayTracingPassErrorInner::GeneralPass(e))),
        },
        ArcRayTracingCommand::BeginPipelineStatisticsQuery { query_set, query_index } =>
            match begin_statistics_step(g, dev, s, query_set, query_index) {
                Ok(r) => Ok(r),
                Err(e) => Err(pass_err(PassErrorScope::BeginPipelineStatisticsQuery, RayTracingPassErrorInner::GeneralPass(e))),
            },
        ArcRayTracingCommand::EndPipelineStatisticsQuery => match end_statistics_step(s) {
            Ok(r) => Ok(r),
            Err(e) => Err(pass_err(PassErrorScope::EndPipelineStatisticsQuery, RayTracingPassErrorInner::GeneralPass(e))),
        },
    }
}

/// Replaying the commands `cmds` in order from state `s`: the state after
/// them and every command recorded, or the first error.
pub open spec fn ray_tracing_run(g: Global, dev: usize, s: ReplayView, cmds: Seq<ArcRayTracingCommand>) -> StepResult<RayTracingPassError>
    decreases cmds.len(),
{
    if cmds.len() == 0 {
        Ok((s, Seq::empty()))
    } else {
        match ray_tracing_run(g, dev, s, cmds.drop_last()) {
            Err(e) => Err(e),
            Ok((s1, a1)) => match ray_tracing_step(g, dev, s1, cmds.last()) {
                Err(e) => Err(e),
                Ok((s2, a2)) => Ok((s2, a1 + a2)),
            },
        }
    }
}

/// The label bytes that a command uses.
pub open spec fn ray_tracing_cmd_label_len(c: ArcRayTracingCommand) -> nat {
    match c {
        ArcRayTracingCommand::PushDebugGroup { len } => len as nat,
        ArcRayTracingCommand::InsertDebugMarker { len } => len as nat,
        _ => 0,
    }
}

/// The dynamic offsets that a command uses.
pub open spec fn ray_tracing_cmd_offsets_len(c: ArcRayTracingCommand) -> nat {
    match c {
        ArcRayTracingCommand::SetBindGroup { index: _, num_dynamic_offsets, bind_group: _ } => num_dynamic_offsets as nat,
        _ => 0,
    }
}

/// The label bytes that the debug commands of `cmds` use.
pub open spec fn ray_tracing_label_bytes(cmds: Seq<ArcRayTracingCommand>) -> nat
    decreases cmds.len(),
{
    if cmds.len() == 0 {
        0
    } else {
        ray_tracing_label_bytes(cmds.drop_last()) + ray_tracing_cmd_label_len(cmds.last())
    }
}

/// The dynamic offsets that the bind group settings of `cmds` use.
pub open spec fn ray_tracing_dynamic_offsets(cmds: Seq<ArcRayTracingCommand>) -> nat
    decreases cmds.len(),
{
    if cmds.len() == 0 {
        0
    } else {
        ray_tracing_dynamic_offsets(cmds.drop_last()) + ray_tracing_cmd_offsets_len(cmds.last())
    }
}

proof fn lemma_ray_tracing_sums_prefix(cmds: Seq<ArcRayTracingCommand>, i: int)
    requires
        0 <= i < cmds.len(),
    ensures
        ray_tracing_label_bytes(cmds.take(i + 1)) == ray_tracing_label_bytes(cmds.take(i)) + ray_tracing_cmd_label_len(cmds[i]),
        ray_tracing_dynamic_offsets(cmds.take(i + 1)) == ray_tracing_dynamic_offsets(cmds.take(i)) + ray_tracing_cmd_offsets_len(cmds[i]),
{
    assert(cmds.take(i + 1).drop_last() =~= cmds.take(i));
}

proof fn lemma_ray_tracing_sums_mono(cmds: Seq<ArcRayTracingCommand>, i: int)
    requires
        0 <= i <= cmds.len(),
    ensures
        ray_tracing_label_bytes(cmds.take(i)) <= ray_tracing_label_bytes(cmds),
        ray_tracing_dynamic_offsets(cmds.take(i)) <= ray_tracing_dynamic_offsets(cmds),
    decreases cmds.len() - i,
{
    if i == cmds.len() {
        assert(cmds.take(i) =~= cmds);
    } else {
        lemma_ray_tracing_sums_prefix(cmds, i);
        lemma_ray_tracing_sums_mono(cmds, i + 1);
    }
}

proof fn lemma_ray_tracing_run_err_persists(g: Global, dev: usize, s: ReplayView, cmds: Seq<ArcRayTracingCommand>, i: int)
    requires
        0 <= i <= cmds.len(),
        ray_tracing_run(g, dev, s, cmds.take(i)) is Err,
    ensures
        ray_tracing_run(g, dev, s, cmds) == ray_tracing_run(g, dev, s, cmds.take(i)),
    decreases cmds.len() - i,
{
    if i == cmds.len() {
        assert(cmds.take(i) =~= cmds);
    } else {
        assert(cmds.take(i + 1).drop_last() =~= cmds.take(i));
        lemma_ray_tracing_run_err_persists(g, dev, s, cmds, i + 1);
    }
}

impl RayTracingPass {
    /// The recorded data covers what the commands use: the labels' bytes, the
    /// dynamic offsets and each upload's push constant words.
    pub open spec fn consistent(self) -> bool {
        self.base is Some ==> {
            let b = self.base->0;
            &&& ray_tracing_label_bytes(b.commands@) <= b.string_data@.len()
            &&& ray_tracing_dynamic_offsets(b.commands@) <= b.dynamic_offsets@.len()
            &&& forall|i: int| 0 <= i < b.commands@.len() ==> match #[trigger] b.commands@[i] {
                ArcRayTracingCommand::SetPushConstant { stages: _, offset, size_bytes, values_offset } =>
                    values_offset + size_bytes / PUSH_CONSTANT_ALIGNMENT <= b.push_constant_data@.len()
                        && offset + size_bytes <= u32::MAX,
                _ => true,
            }
        }
    }
}

impl Global {
    /// Every resource that a recorded ray tracing command refers to is held.
    pub open spec fn ray_tracing_refs_held(&self, cmds: Seq<ArcRayTracingCommand>) -> bool {
        forall|i: int| 0 <= i < cmds.len() ==> self.ray_tracing_command_refs_held(#[trigger] cmds[i])
    }

    /// Every resource that the command refers to is held.
    pub open spec fn ray_tracing_command_refs_held(&self, c: ArcRayTracingCommand) -> bool {
        match c {
            ArcRayTracingCommand::SetBindGroup { index: _, num_dynamic_offsets: _, bind_group } =>
                bind_group is Some ==> self.bind_groups.holds(bind_group->0),
            ArcRayTracingCommand::SetPipeline(p) => self.ray_tracing_pipelines.holds(p),
            ArcRayTracingCommand::TraceRaysIndirect { buffer, offset: _ } => self.buffers.holds(buffer),
            ArcRayTracingCommand::WriteTimestamp { query_set, query_index: _ } => self.query_sets.holds(query_set),
            ArcRayTracingCommand::BeginPipelineStatisticsQuery { query_set, query_index: _ } => self.query_sets.holds(query_set),
            _ => true,
        }
    }
}

/// The ray tracing replay state refers only to held resources.
pub open spec fn ray_tracing_state_held(g: Global, s: ReplayView) -> bool {
    &&& crate::replay::bound_groups_held(g, s)
    &&& s.pipeline is Some ==> g.ray_tracing_pipelines.holds(s.pipeline->0)
}

/// Returns `trace_rays_readiness(g, s)`.
fn trace_rays_ready(g: &Global, s: &ReplayState) -> (r: Result<(), TraceRaysError>)
    requires
        g.well_formed(),
        ray_tracing_state_held(*g, s.view()),
    ensures
        r == trace_rays_readiness(*g, s.view()),
{
    match s.pipeline {
        None => Err(TraceRaysError::MissingPipeline),
        Some(p) => {
            let lid = g.ray_tracing_pipelines.resource(p).layout;
            assert(g.ray_tracing_pipelines.holds(p));
            assert(g.pipeline_layouts.holds(lid));
            let layout = g.pipeline_layouts.resource(lid);
            assert(layout.bind_group_layouts@.len() <= MAX_BIND_GROUPS);
            match crate::replay::check_compatibility(g, s, &layout.bind_group_layouts, ExclusivePipeline::RayTracing(p)) {
                Some(i) => {
                    proof {
                        crate::replay::lemma_first_incompatible_bound(
                            *g,
                            s.bound@,
                            layout.bind_group_layouts@,
                            ExclusivePipeline::RayTracing(p),
                            layout.bind_group_layouts@.len(),
                        );
                    }
                    Err(TraceRaysError::IncompatibleBindGroup { index: i as u32 })
                },
                None => match crate::replay::check_late_buffer_bindings(g, s, &g.ray_tracing_pipelines.resource(p).late_sized_buffer_groups) {
                    Some(m) => Err(TraceRaysError::BindingSizeTooSmall(m)),
                    None => Ok(()),
                },
            }
        },
    }
}

/// Replays one ray tracing command (see `ray_tracing_step`).
fn replay_ray_tracing_command(
    g: &Global,
    dev: usize,
    s: &mut ReplayState,
    acts: &mut Vec<RawCommand>,
    cmd: ArcRayTracingCommand,
) -> (r: Result<(), RayTracingPassError>)
    requires
        g.well_formed(),
        dev < g.devices@.len(),
        g.ray_tracing_command_refs_held(cmd),
        ray_tracing_state_held(*g, old(s).view()),
        old(s).string_offset + ray_tracing_cmd_label_len(cmd) <= usize::MAX,
        old(s).dynamic_offset_count + ray_tracing_cmd_offsets_len(cmd) <= usize::MAX,
        old(s).debug_depth < usize::MAX,
        cmd matches ArcRayTracingCommand::SetPushConstant { stages: _, offset, size_bytes, values_offset: _ } ==> offset + size_bytes <= u32::MAX,
    ensures
        stepped(ray_tracing_step(*g, dev, old(s).view(), cmd), old(s).view(), final(s).view(), old(acts)@, final(acts)@, r),
        r is Ok ==> {
            &&& ray_tracing_state_held(*g, final(s).view())
            &&& final(s).string_offset == old(s).string_offset + ray_tracing_cmd_label_len(cmd)
            &&& final(s).dynamic_offset_count == old(s).dynamic_offset_count + ray_tracing_cmd_offsets_len(cmd)
            &&& final(s).debug_depth <= old(s).debug_depth + 1
        },
{
    let device = &g.devices[dev];
    match cmd {
        ArcRayTracingCommand::SetBindGroup { index, num_dynamic_offsets, bind_group } => {
            match crate::replay::set_bind_group(g, dev, s, acts, index, num_dynamic_offsets, bind_group) {
                Ok(()) => Ok(()),
                Err(e) => Err(RayTracingPassError { scope: PassErrorScope::SetBindGroup, inner: RayTracingPassErrorInner::GeneralPass(e) }),
            }
        },
        ArcRayTracingCommand::SetPipeline(p) => {
            let pl = g.ray_tracing_pipelines.resource(p);
            if pl.device != dev {
                return Err(RayTracingPassError {
                    scope: PassErrorScope::SetPipelineRayTracing,
                    inner: RayTracingPassErrorInner::GeneralPass(PassError::Device(DeviceError::DeviceMismatch { kind: ResourceKind::RayTracingPipeline, id: p })),
                });
            }
            let same_layout = match s.layout {
                Some(l) => l == pl.layout,
                None => false,
            };
            acts.push(RawCommand::SetRayTracingPipeline { pipeline: p });
            if same_layout {
                s.pipeline = Some(p);
                assert(acts@ =~= old(acts)@ + seq![RawCommand::SetRayTracingPipeline { pipeline: p }]);
            } else {
                let layout = g.pipeline_layouts.resource(pl.layout);
                let ghost mid = acts@;
                crate::replay::rebind(s, acts, layout.bind_group_layouts.len());
                s.pipeline = Some(p);
                s.layout = Some(pl.layout);
                assert(acts@ =~= old(acts)@ + (seq![RawCommand::SetRayTracingPipeline { pipeline: p }] + rebind_actions(
                    old(s).bound@,
                    layout.bind_group_layouts@.len(),
                )));
            }
            Ok(())
        },
        ArcRayTracingCommand::SetPushConstant { stages, offset, size_bytes, values_offset } => {
            let scope = PassErrorScope::SetPushConstant;
            match s.layout {
                None => Err(RayTracingPassError { scope, inner: RayTracingPassErrorInner::GeneralPass(PassError::MissingPipeline) }),
                Some(l) => {
                    let layout = g.pipeline_layouts.resource(l);
                    match crate::replay::validate_push_constant_ranges(
                        &layout.push_constant_ranges,
                        stages,
                        offset,
                        offset + size_bytes,
                    ) {
                        Err(e) => Err(RayTracingPassError { scope, inner: RayTracingPassErrorInner::GeneralPass(PassError::PushConstants(e)) }),
                        Ok(()) => {
                            let a = RawCommand::SetPushConstants {
                                stages,
                                byte_offset: offset,
                                values_start: values_offset as usize,
                                values_len: (size_bytes / PUSH_CONSTANT_ALIGNMENT) as usize,
                            };
                            acts.push(a);
                            assert(acts@ =~= old(acts)@ + seq![a]);
                            Ok(())
                        },
                    }
                },
            }
        },
        ArcRayTracingCommand::TraceRays(count) => {
            let scope = PassErrorScope::TraceRays { indirect: false };
            if let Err(e) = trace_rays_ready(g, s) {
                return Err(RayTracingPassError { scope, inner: RayTracingPassErrorInner::TraceRays(e) });
            }
            let per_dim = device.limits.max_compute_workgroups_per_dimension;
            let limit = [
                device.limits.max_compute_workgroup_size_x * per_dim,
                device.limits.max_compute_workgroup_size_y * per_dim,
                device.limits.max_compute_workgroup_size_z * per_dim,
            ];
            if count[0] > limit[0] || count[1] > limit[1] || count[2] > limit[2] {
                return Err(RayTracingPassError {
                    scope,
                    inner: RayTracingPassErrorInner::TraceRays(TraceRaysError::InvalidGroupSize { current: count, limit }),
                });
            }
            let (gen, miss, hit) = shader_binding_regions(g.ray_tracing_pipelines.resource(s.pipeline.unwrap()));
            acts.push(RawCommand::TraceRays { count, ray_generation: gen, ray_miss: miss, ray_hit: hit });
            assert(acts@ =~= old(acts)@ + seq![RawCommand::TraceRays { count, ray_generation: gen, ray_miss: miss, ray_hit: hit }]);
            Ok(())
        },
        ArcRayTracingCommand::TraceRaysIndirect { buffer, offset } => {
            let scope = PassErrorScope::TraceRays { indirect: true };
            if let Err(e) = trace_rays_ready(g, s) {
                return Err(RayTracingPassError { scope, inner: RayTracingPassErrorInner::TraceRays(e) });
            }
            if g.buffers.resource(buffer).destroyed {
                return Err(RayTracingPassError {
                    scope,
                    inner: RayTracingPassErrorInner::GeneralPass(PassError::DestroyedResource { kind: ResourceKind::Buffer, id: buffer }),
                });
            }
            let (gen, miss, hit) = shader_binding_regions(g.ray_tracing_pipelines.resource(s.pipeline.unwrap()));
            acts.push(RawCommand::TraceRaysIndirect { buffer, offset, ray_generation: gen, ray_miss: miss, ray_hit: hit });
            assert(acts@ =~= old(acts)@ + seq![RawCommand::TraceRaysIndirect {
                buffer,
                offset,
                ray_generation: gen,
                ray_miss: miss,
                ray_hit: hit,
            }]);
            Ok(())
        },
        ArcRayTracingCommand::PushDebugGroup { len } => {
            crate::replay::push_debug_group(s, acts, len);
            Ok(())
        },
        ArcRayTracingCommand::PopDebugGroup => match crate::replay::pop_debug_group(s, acts) {
            Ok(()) => Ok(()),
            Err(e) => Err(RayTracingPassError { scope: PassErrorScope::PopDebugGroup, inner: RayTracingPassErrorInner::GeneralPass(e) }),
        },
        ArcRayTracingCommand::InsertDebugMarker { len } => {
            crate::replay::insert_debug_marker(s, acts, len);
            Ok(())
        },
        ArcRayTracingCommand::WriteTimestamp { query_set, query_index } => match crate::replay::write_timestamp(
            g,
            dev,
            s,
            acts,
            query_set,
            query_index,
        ) {
            Ok(()) => Ok(()),
            Err(e) => Err(RayTracingPassError { scope: PassErrorScope::WriteTimestamp, inner: RayTracingPassErrorInner::GeneralPass(e) }),
        },
        ArcRayTracingCommand::BeginPipelineStatisticsQuery { query_set, query_index } =>
            match crate::replay::begin_pipeline_statistics_query(g, dev, s, acts, query_set, query_index) {
                Ok(()) => Ok(()),
                Err(e) => Err(RayTracingPassError {
                    scope: PassErrorScope::BeginPipelineStatisticsQuery,
                    inner: RayTracingPassErrorInner::GeneralPass(e),
                }),
            },
        ArcRayTracingCommand::EndPipelineStatisticsQuery => match crate::replay::end_pipeline_statistics_query(s, acts) {
            Ok(()) => Ok(()),
            Err(e) => Err(RayTracingPassError {
                scope: PassErrorScope::EndPipelineStatisticsQuery,
                inner: RayTracingPassErrorInner::GeneralPass(e),
            }),
        },
    }
}


/// Every push constant upload's byte range ends within `u32`.
pub open spec fn ray_tracing_push_constants_fit(cmds: Seq<ArcRayTracingCommand>) -> bool {
    forall|i: int| 0 <= i < cmds.len() ==> (#[trigger] cmds[i] matches ArcRayTracingCommand::SetPushConstant {
        stages: _,
        offset,
        size_bytes,
        values_offset: _,
    } ==> offset + size_bytes <= u32::MAX)
}

/// The commands that replaying a ray tracing pass records: the timestamp query
/// resets, the beginning of the pass, the replayed commands and the end of
/// the pass; or the error that stops the replay.
pub open spec fn ray_tracing_pass_replay(
    g: Global,
    dev: usize,
    cmds: Seq<ArcRayTracingCommand>,
    tw: Option<PassTimestampWrites>,
) -> Result<Seq<RawCommand>, RayTracingPassError> {
    match crate::replay::timestamp_reset_actions(g, dev, tw) {
        Err(e) => Err(pass_err(PassErrorScope::Pass, RayTracingPassErrorInner::GeneralPass(e))),
        Ok(pre) => match ray_tracing_run(g, dev, initial_view(), cmds) {
            Err(e) => Err(e),
            Ok((_, acts)) => Ok(pre + seq![RawCommand::BeginRayTracingPass { timestamp_writes: tw }] + acts + seq![
                RawCommand::EndRayTracingPass,
            ]),
        },
    }
}

proof fn lemma_ray_tracing_run_trace_limits(g: Global, dev: usize, s: ReplayView, cmds: Seq<ArcRayTracingCommand>)
    requires
        ray_tracing_run(g, dev, s, cmds) is Ok,
    ensures
        forall|i: int|
            0 <= i < cmds.len() && (#[trigger] cmds[i]) is TraceRays ==> {
                let count = cmds[i]->TraceRays_0;
                let limit = trace_rays_limits(g.devices@[dev as int]);
                count[0] <= limit[0] && count[1] <= limit[1] && count[2] <= limit[2]
            },
    decreases cmds.len(),
{
    if cmds.len() > 0 {
        let p = cmds.drop_last();
        lemma_ray_tracing_run_trace_limits(g, dev, s, p);
        assert forall|i: int| 0 <= i < p.len() implies p[i] == cmds[i] by {}
        assert(cmds.last() == cmds[cmds.len() - 1]);
    }
}

/// A ray tracing pass whose replay succeeds traces no more rays than the
/// device allows in any dimension: in every direct `trace_rays` of the pass,
/// the ray count of each dimension `d` is at most the device's
/// `max_compute_workgroup_size_d * max_compute_workgroups_per_dimension`.  So
/// a pass holding a `trace_rays` over that limit in any dimension fails to
/// replay.
pub proof fn lemma_replayed_trace_rays_within_limit(
    g: Global,
    dev: usize,
    cmds: Seq<ArcRayTracingCommand>,
    tw: Option<PassTimestampWrites>,
    i: int,
)
    requires
        g.devices@[dev as int].well_formed(),
        ray_tracing_pass_replay(g, dev, cmds, tw) is Ok,
        0 <= i < cmds.len(),
        cmds[i] is TraceRays,
    ensures
        ({
            let count = cmds[i]->TraceRays_0;
            let limits = g.devices@[dev as int].limits;
            let per_dim = limits.max_compute_workgroups_per_dimension;
            &&& count[0] <= limits.max_compute_workgroup_size_x * per_dim
            &&& count[1] <= limits.max_compute_workgroup_size_y * per_dim
            &&& count[2] <= limits.max_compute_workgroup_size_z * per_dim
        }),
{
    lemma_ray_tracing_run_trace_limits(g, dev, initial_view(), cmds);
}

/// The command `c` is no direct trace, or a trace of at most `x`, `y` and `z`
/// rays in the three dimensions.
pub open spec fn trace_within(c: RawCommand, x: int, y: int, z: int) -> bool {
    match c {
        RawCommand::TraceRays { count, .. } => count[0] <= x && count[1] <= y && count[2] <= z,
        _ => true,
    }
}

/// Every direct trace among `acts` is of at most `x`, `y` and `z` rays.
pub open spec fn traces_within(acts: Seq<RawCommand>, x: int, y: int, z: int) -> bool {
    forall|i: int| 0 <= i < acts.len() ==> #[trigger] trace_within(acts[i], x, y, z)
}

/// The ray count limits of a device, computed over the integers.
pub open spec fn ray_count_limits(device: crate::resource::Device) -> (int, int, int) {
    let per_dim = device.limits.max_compute_workgroups_per_dimension;
    (
        device.limits.max_compute_workgroup_size_x * per_dim,
        device.limits.max_compute_workgroup_size_y * per_dim,
        device.limits.max_compute_workgroup_size_z * per_dim,
    )
}

proof fn lemma_traces_within_concat(a: Seq<RawCommand>, b: Seq<RawCommand>, x: int, y: int, z: int)
    requires
        traces_within(a, x, y, z),
        traces_within(b, x, y, z),
    ensures
        traces_within(a + b, x, y, z),
{
    assert forall|i: int| 0 <= i < (a + b).len() implies #[trigger] trace_within((a + b)[i], x, y, z) by {
        if i < a.len() {
            assert((a + b)[i] == a[i]);
        } else {
            assert((a + b)[i] == b[i - a.len()]);
        }
    }
}

proof fn lemma_rebind_has_no_trace(bound: Seq<Option<crate::replay::BoundGroup>>, n: nat, x: int, y: int, z: int)
    ensures
        traces_within(rebind_actions(bound, n), x, y, z),
    decreases n,
{
    if n > 0 && n <= bound.len() {
        lemma_rebind_has_no_trace(bound, (n - 1) as nat, x, y, z);
        let tail = match bound[n - 1] {
            Some(b) => seq![RawCommand::SetBindGroup {
                index: (n - 1) as u32,
                bind_group: b.group,
                offsets_start: b.offsets_start,
                offsets_len: b.offsets_len,
            }],
            None => Seq::empty(),
        };
        assert forall|i: int| 0 <= i < tail.len() implies #[trigger] trace_within(tail[i], x, y, z) by {}
        lemma_traces_within_concat(rebind_actions(bound, (n - 1) as nat), tail, x, y, z);
    }
}

proof fn lemma_ray_tracing_step_traces_within(g: Global, dev: usize, s: ReplayView, cmd: ArcRayTracingCommand)
    requires
        g.devices@[dev as int].well_formed(),
        ray_tracing_step(g, dev, s, cmd) is Ok,
    ensures
        ({
            let (x, y, z) = ray_count_limits(g.devices@[dev as int]);
            traces_within(ray_tracing_step(g, dev, s, cmd)->Ok_0.1, x, y, z)
        }),
{
    let (x, y, z) = ray_count_limits(g.devices@[dev as int]);
    let acts = ray_tracing_step(g, dev, s, cmd)->Ok_0.1;
    match cmd {
        ArcRayTracingCommand::SetPipeline(p) => {
            let pl = g.ray_tracing_pipelines.data(p);
            if s.layout != Some(pl.layout) {
                let first = seq![RawCommand::SetRayTracingPipeline { pipeline: p }];
                assert forall|i: int| 0 <= i < first.len() implies #[trigger] trace_within(first[i], x, y, z) by {}
                let n = g.pipeline_layouts.data(pl.layout).bind_group_layouts@.len();
                lemma_rebind_has_no_trace(s.bound, n, x, y, z);
                lemma_traces_within_concat(first, rebind_actions(s.bound, n), x, y, z);
            }
        },
        _ => {
            assert forall|i: int| 0 <= i < acts.len() implies #[trigger] trace_within(acts[i], x, y, z) by {}
        },
    }
}

proof fn lemma_ray_tracing_run_traces_within(g: Global, dev: usize, s: ReplayView, cmds: Seq<ArcRayTracingCommand>)
    requires
        g.devices@[dev as int].well_formed(),
        ray_tracing_run(g, dev, s, cmds) is Ok,
    ensures
        ({
            let (x, y, z) = ray_count_limits(g.devices@[dev as int]);
            traces_within(ray_tracing_run(g, dev, s, cmds)->Ok_0.1, x, y, z)
        }),
    decreases cmds.len(),
{
    let (x, y, z) = ray_count_limits(g.devices@[dev as int]);
    if cmds.len() == 0 {
        let e = Seq::<RawCommand>::empty();
        assert forall|i: int| 0 <= i < e.len() implies #[trigger] trace_within(e[i], x, y, z) by {}
    } else {
        lemma_ray_tracing_run_traces_within(g, dev, s, cmds.drop_last());
        let (s1, a1) = ray_tracing_run(g, dev, s, cmds.drop_last())->Ok_0;
        lemma_ray_tracing_step_traces_within(g, dev, s1, cmds.last());
        lemma_traces_within_concat(a1, ray_tracing_step(g, dev, s1, cmds.last())->Ok_0.1, x, y, z);
    }
}

/// A ray tracing pass whose replay succeeds, on a device whose ray count
/// limits fit in `u32`, records no trace of more rays than the device allows:
/// every `TraceRays` command that it records has, in each dimension `d`, a
/// ray count of at most
/// `max_compute_workgroup_size_d * max_compute_workgroups_per_dimension`.
pub proof fn lemma_recorded_traces_within_limit(
    g: Global,
    dev: usize,
    cmds: Seq<ArcRayTracingCommand>,
    tw: Option<PassTimestampWrites>,
)
    requires
        g.devices@[dev as int].well_formed(),
        ray_tracing_pass_replay(g, dev, cmds, tw) is Ok,
    ensures
        ({
            let acts = ray_tracing_pass_replay(g, dev, cmds, tw)->Ok_0;
            let limits = g.devices@[dev as int].limits;
            let per_dim = limits.max_compute_workgroups_per_dimension;
            forall|i: int| 0 <= i < acts.len() ==> match #[trigger] acts[i] {
                RawCommand::TraceRays { count, .. } => count[0] <= limits.max_compute_workgroup_size_x * per_dim
                    && count[1] <= limits.max_compute_workgroup_size_y * per_dim && count[2]
                    <= limits.max_compute_workgroup_size_z * per_dim,
                _ => true,
            }
        }),
{
    let (x, y, z) = ray_count_limits(g.devices@[dev as int]);
    let pre = crate::replay::timestamp_reset_actions(g, dev, tw)->Ok_0;
    let body = ray_tracing_run(g, dev, initial_view(), cmds)->Ok_0.1;
    lemma_ray_tracing_run_traces_within(g, dev, initial_view(), cmds);
    let b = seq![RawCommand::BeginRayTracingPass { timestamp_writes: tw }];
    let e = seq![RawCommand::EndRayTracingPass];
    assert forall|i: int| 0 <= i < pre.len() implies #[trigger] trace_within(pre[i], x, y, z) by {}
    assert forall|i: int| 0 <= i < b.len() implies #[trigger] trace_within(b[i], x, y, z) by {}
    assert forall|i: int| 0 <= i < e.len() implies #[trigger] trace_within(e[i], x, y, z) by {}
    lemma_traces_within_concat(pre, b, x, y, z);
    lemma_traces_within_concat(pre + b, body, x, y, z);
    lemma_traces_within_concat(pre + b + body, e, x, y, z);
    let acts = ray_tracing_pass_replay(g, dev, cmds, tw)->Ok_0;
    assert(acts == pre + b + body + e);
    assert forall|i: int| 0 <= i < acts.len() implies match #[trigger] acts[i] {
        RawCommand::TraceRays { count, .. } => count[0] <= x && count[1] <= y && count[2] <= z,
        _ => true,
    } by {
        assert(trace_within(acts[i], x, y, z));
    }
}

/// Once a ray tracing pipeline is ready to trace, a direct `trace_rays` on a
/// device whose ray count limits fit in `u32` is decided by its ray counts
/// alone: when the count of each dimension `d` is at most
/// `max_compute_workgroup_size_d * max_compute_workgroups_per_dimension` it
/// records one trace of exactly those counts and changes no state; when any
/// of them is over, it fails with `InvalidGroupSize`, naming the counts and
/// the three limits.
pub proof fn lemma_trace_rays_decided_by_limit(g: Global, dev: usize, s: ReplayView, count: [u32; 3])
    requires
        g.devices@[dev as int].well_formed(),
        trace_rays_readiness(g, s) is Ok,
    ensures
        ({
            let limits = g.devices@[dev as int].limits;
            let per_dim = limits.max_compute_workgroups_per_dimension;
            let x = limits.max_compute_workgroup_size_x * per_dim;
            let y = limits.max_compute_workgroup_size_y * per_dim;
            let z = limits.max_compute_workgroup_size_z * per_dim;
            let r = ray_tracing_step(g, dev, s, ArcRayTracingCommand::TraceRays(count));
            if count[0] <= x && count[1] <= y && count[2] <= z {
                match r {
                    Ok((s2, acts)) => s2 == s && acts.len() == 1 && match acts[0] {
                        RawCommand::TraceRays { count: c, .. } => c == count,
                        _ => false,
                    },
                    Err(_) => false,
                }
            } else {
                match r {
                    Err(e) => e.scope == (PassErrorScope::TraceRays { indirect: false }) && match e.inner {
                        RayTracingPassErrorInner::TraceRays(TraceRaysError::InvalidGroupSize { current, limit }) => current
                            == count && limit[0] == x && limit[1] == y && limit[2] == z,
                        _ => false,
                    },
                    Ok(_) => false,
                }
            }
        }),
{
}

impl Global {
    /// Ends a ray tracing pass: replays its recorded commands into its encoder,
    /// validating each, and unlocks the encoder.
    ///
    /// A pass without a parent, or one that has already ended, fails and is
    /// left as it is.  Otherwise the pass ends (its data is taken) whatever
    /// follows.  On an invalid device the encoder stays locked.  If the encoder
    /// cannot be unlocked it fails as `unlock_encoder_spec` says.  Once it is
    /// unlocked, any error invalidates the encoder and nothing is recorded; on
    /// success the encoder records again and holds `ray_tracing_pass_replay`'s
    /// commands.
    pub fn ray_tracing_pass_end(&mut self, pass: &mut RayTracingPass) -> (r: Result<(), RayTracingPassError>)
        requires
            old(self).well_formed(),
            old(pass).parent is Some ==> old(pass).parent->0 < old(self).command_buffers@.len(),
            old(pass).parent is Some && old(pass).base is Some ==> {
                &&& old(pass).consistent()
                &&& old(self).ray_tracing_refs_held(old(pass).base->0.commands@)
                &&& old(pass).timestamp_writes is Some ==> old(self).query_sets.holds(old(pass).timestamp_writes->0.query_set)
                &&& crate::replay::timestamp_indices_fit(old(pass).timestamp_writes)
            },
        ensures
            final(self).well_formed(),
            old(pass).parent is None ==> r == Err::<(), _>(pass_err(PassErrorScope::Pass, RayTracingPassErrorInner::InvalidParentEncoder))
                && *final(pass) == *old(pass) && *final(self) == *old(self),
            old(pass).parent is Some && old(pass).base is None ==> r == Err::<(), _>(pass_err(
                PassErrorScope::Pass,
                RayTracingPassErrorInner::PassEnded,
            )) && *final(pass) == *old(pass) && *final(self) == *old(self),
            old(pass).parent is Some && old(pass).base is Some ==> {
                let p = old(pass).parent->0;
                let cb = old(self).command_buffers@[p as int];
                let dev = cb.device;
                let (unlocked, unlock) = unlock_encoder_spec(cb.status);
                let new_cb = final(self).command_buffers@[p as int];
                &&& final(pass).base is None
                &&& final(pass).parent == old(pass).parent
                &&& final(pass).current_pipeline == old(pass).current_pipeline
                &&& final(pass).current_bind_groups == old(pass).current_bind_groups
                &&& final(self).same_resources(*old(self))
                &&& final(self).command_buffers@.len() == old(self).command_buffers@.len()
                &&& forall|i: int| 0 <= i < old(self).command_buffers@.len() && i != p ==> final(self).command_buffers@[i]
                    == old(self).command_buffers@[i]
                &&& new_cb.device == cb.device
                &&& new_cb.as_actions == cb.as_actions
                &&& if !old(self).devices@[dev as int].valid {
                    &&& r == Err::<(), _>(pass_err(
                        PassErrorScope::Pass,
                        RayTracingPassErrorInner::GeneralPass(PassError::Device(DeviceError::Invalid)),
                    ))
                    &&& final(pass).timestamp_writes == old(pass).timestamp_writes
                    &&& new_cb.status == cb.status
                    &&& new_cb.commands@ == cb.commands@
                } else if unlock is Err {
                    &&& r == Err::<(), _>(pass_err(PassErrorScope::Pass, RayTracingPassErrorInner::EncoderState(unlock->Err_0)))
                    &&& final(pass).timestamp_writes == old(pass).timestamp_writes
                    &&& new_cb.status == unlocked
                    &&& new_cb.commands@ == cb.commands@
                } else {
                    &&& final(pass).timestamp_writes is None
                    &&& match ray_tracing_pass_replay(*old(self), dev, old(pass).base->0.commands@, old(pass).timestamp_writes) {
                        Err(e) => r == Err::<(), _>(e) && new_cb.status == EncoderStatus::Error(CommandEncoderError::RayTracingPass(e))
                            && new_cb.commands@ == cb.commands@,
                        Ok(a) => r is Ok && new_cb.status == EncoderStatus::Recording && new_cb.commands@ == cb.commands@ + a,
                    }
                }
            },
    {
        let p = match pass.parent {
            Some(p) => p,
            None => return Err(RayTracingPassError { scope: PassErrorScope::Pass, inner: RayTracingPassErrorInner::InvalidParentEncoder }),
        };
        if pass.base.is_none() {
            return Err(RayTracingPassError { scope: PassErrorScope::Pass, inner: RayTracingPassErrorInner::PassEnded });
        }
        let base = pass.base.take().unwrap();
        let dev = self.command_buffers[p].device;
        if !self.devices[dev].valid {
            return Err(RayTracingPassError {
                scope: PassErrorScope::Pass,
                inner: RayTracingPassErrorInner::GeneralPass(PassError::Device(DeviceError::Invalid)),
            });
        }
        let (unlocked, unlock) = unlock_encoder(self.command_buffers[p].status);
        if let Err(e) = unlock {
            self.set_encoder_status(p, unlocked);
            return Err(RayTracingPassError { scope: PassErrorScope::Pass, inner: RayTracingPassErrorInner::EncoderState(e) });
        }
        let tw = pass.timestamp_writes.take();
        let mut acts: Vec<RawCommand> = Vec::new();
        if let Err(e) = crate::replay::reset_timestamp_queries(self, dev, tw, &mut acts) {
            let err = RayTracingPassError { scope: PassErrorScope::Pass, inner: RayTracingPassErrorInner::GeneralPass(e) };
            self.set_encoder_status(p, EncoderStatus::Error(CommandEncoderError::RayTracingPass(err)));
            return Err(err);
        }
        let ghost resets = acts@;
        acts.push(RawCommand::BeginRayTracingPass { timestamp_writes: tw });
        let ghost pre = acts@;
        assert(pre.drop_last() =~= resets);
        let cmds = &base.commands;
        let string_len = base.string_data.len();
        let offsets_len = base.dynamic_offsets.len();
        let mut state = ReplayState::new();
        let mut body: Vec<RawCommand> = Vec::new();
        let mut i: usize = 0;
        proof {
            assert(cmds@.take(0) =~= Seq::<ArcRayTracingCommand>::empty());
            lemma_ray_tracing_sums_mono(cmds@, cmds@.len() as int);
        }
        while i < cmds.len()
            invariant
                i <= cmds@.len(),
                *self == *old(self),
                self.well_formed(),
                old(pass).parent == Some(p),
                old(pass).base == Some(base),
                cmds@ == old(pass).base->0.commands@,
                pass.base is None,
                pass.parent == old(pass).parent,
                pass.timestamp_writes is None,
                pass.current_pipeline == old(pass).current_pipeline,
                pass.current_bind_groups == old(pass).current_bind_groups,
                tw == old(pass).timestamp_writes,
                dev == old(self).command_buffers@[p as int].device,
                old(self).devices@[dev as int].valid,
                unlock_encoder_spec(old(self).command_buffers@[p as int].status) == (unlocked, Ok::<(), EncoderStateError>(())),
                crate::replay::timestamp_reset_actions(*self, dev, tw) == Ok::<_, PassError>(pre.drop_last()),
                pre.last() == (RawCommand::BeginRayTracingPass { timestamp_writes: tw }),
                acts@ == pre,
                pre.len() > 0,
                p < self.command_buffers@.len(),
                dev < self.devices@.len(),
                self.ray_tracing_refs_held(cmds@),
                ray_tracing_push_constants_fit(cmds@),
                string_len == base.string_data@.len(),
                offsets_len == base.dynamic_offsets@.len(),
                ray_tracing_label_bytes(cmds@) <= string_len,
                ray_tracing_dynamic_offsets(cmds@) <= offsets_len,
                ray_tracing_run(*self, dev, initial_view(), cmds@.take(i as int)) == Ok::<_, RayTracingPassError>((state.view(), body@)),
                ray_tracing_state_held(*self, state.view()),
                state.string_offset == ray_tracing_label_bytes(cmds@.take(i as int)),
                state.dynamic_offset_count == ray_tracing_dynamic_offsets(cmds@.take(i as int)),
                state.debug_depth <= i,
            decreases cmds@.len() - i,
        {
            let cmd = cmds[i];
            proof {
                lemma_ray_tracing_sums_prefix(cmds@, i as int);
                lemma_ray_tracing_sums_mono(cmds@, i as int + 1);
                assert(self.ray_tracing_command_refs_held(cmds@[i as int]));
                assert(cmds@.take(i as int + 1).drop_last() =~= cmds@.take(i as int));
            }
            let ghost sv = state.view();
            let r = replay_ray_tracing_command(self, dev, &mut state, &mut body, cmd);
            if let Err(e) = r {
                assert(ray_tracing_step(*self, dev, sv, cmd) == Err::<(ReplayView, Seq<RawCommand>), RayTracingPassError>(e));
                assert(ray_tracing_run(*self, dev, initial_view(), cmds@.take(i as int + 1)) == Err::<(ReplayView, Seq<RawCommand>), RayTracingPassError>(e));
                proof { lemma_ray_tracing_run_err_persists(*self, dev, initial_view(), cmds@, i as int + 1); }
                assert(ray_tracing_run(*old(self), dev, initial_view(), old(pass).base->0.commands@) == Err::<(ReplayView, Seq<RawCommand>), RayTracingPassError>(e));
                assert(ray_tracing_pass_replay(*old(self), dev, old(pass).base->0.commands@, old(pass).timestamp_writes) == Err::<Seq<RawCommand>, RayTracingPassError>(e));
                self.set_encoder_status(p, EncoderStatus::Error(CommandEncoderError::RayTracingPass(e)));
                return Err(e);
            }
            i = i + 1;
        }
        proof {
            assert(cmds@.take(cmds@.len() as int) =~= cmds@);
        }
        let ghost body_acts = body@;
        acts.append(&mut body);
        acts.push(RawCommand::EndRayTracingPass);
        assert(acts@ =~= pre.drop_last() + seq![RawCommand::BeginRayTracingPass { timestamp_writes: tw }] + body_acts + seq![
            RawCommand::EndRayTracingPass,
        ]);
        self.append_commands(p, &mut acts, EncoderStatus::Recording);
        Ok(())
    }
}


impl Global {
    /// What recording keeps of a pass: its data covers its commands, and its
    /// commands refer only to held resources.
    pub open spec fn ray_tracing_pass_invariant(&self, pass: RayTracingPass) -> bool {
        &&& pass.consistent()
        &&& pass.base is Some ==> self.ray_tracing_refs_held(pass.base->0.commands@)
    }
}

/// Recording a command whose resources are held, with data that covers what
/// it uses, keeps the pass invariant.
pub proof fn lemma_ray_tracing_record_keeps_invariant(
    g: Global,
    old_pass: RayTracingPass,
    new_pass: RayTracingPass,
    cmd: ArcRayTracingCommand,
    strings: Seq<u8>,
    words: Seq<u32>,
)
    requires
        g.ray_tracing_pass_invariant(old_pass),
        old_pass.records(new_pass, cmd, strings, words),
        g.ray_tracing_command_refs_held(cmd),
        ray_tracing_cmd_label_len(cmd) <= strings.len(),
        ray_tracing_cmd_offsets_len(cmd) == 0,
        cmd matches ArcRayTracingCommand::SetPushConstant { stages: _, offset, size_bytes, values_offset } ==> values_offset + size_bytes
            / PUSH_CONSTANT_ALIGNMENT <= old_pass.base->0.push_constant_data@.len() + words.len() && offset + size_bytes
            <= u32::MAX,
    ensures
        g.ray_tracing_pass_invariant(new_pass),
{
    let oc = old_pass.base->0.commands@;
    let nc = new_pass.base->0.commands@;
    assert(nc.drop_last() =~= oc);
    assert forall|i: int| 0 <= i < nc.len() implies g.ray_tracing_command_refs_held(#[trigger] nc[i]) by {
        if i < oc.len() {
            assert(nc[i] == oc[i]);
        }
    }
    assert forall|i: int| 0 <= i < nc.len() implies match #[trigger] nc[i] {
        ArcRayTracingCommand::SetPushConstant { stages: _, offset, size_bytes, values_offset } =>
            values_offset + size_bytes / PUSH_CONSTANT_ALIGNMENT <= new_pass.base->0.push_constant_data@.len()
                && offset + size_bytes <= u32::MAX,
        _ => true,
    } by {
        if i < oc.len() {
            assert(nc[i] == oc[i]);
        }
    }
}

/// Setting a bind group keeps the pass invariant: the offsets it stores
/// cover the offsets its command uses.
pub proof fn lemma_ray_tracing_set_bind_group_keeps_invariant(
    g: Global,
    old_pass: RayTracingPass,
    new_pass: RayTracingPass,
    offsets: Seq<u32>,
    cmd: Option<ArcRayTracingCommand>,
)
    requires
        g.ray_tracing_pass_invariant(old_pass),
        old_pass.base is Some,
        new_pass.base is Some,
        new_pass.base->0.dynamic_offsets@ == old_pass.base->0.dynamic_offsets@ + offsets,
        new_pass.base->0.string_data@ == old_pass.base->0.string_data@,
        new_pass.base->0.push_constant_data@ == old_pass.base->0.push_constant_data@,
        cmd is None ==> new_pass.base->0.commands@ == old_pass.base->0.commands@,
        cmd is Some ==> new_pass.base->0.commands@ == old_pass.base->0.commands@.push(cmd->0)
            && g.ray_tracing_command_refs_held(cmd->0) && ray_tracing_cmd_label_len(cmd->0) == 0
            && ray_tracing_cmd_offsets_len(cmd->0) <= offsets.len() && !(cmd->0 is SetPushConstant),
    ensures
        g.ray_tracing_pass_invariant(new_pass),
{
    let oc = old_pass.base->0.commands@;
    let nc = new_pass.base->0.commands@;
    if cmd is Some {
        assert(nc.drop_last() =~= oc);
        assert forall|i: int| 0 <= i < nc.len() implies g.ray_tracing_command_refs_held(#[trigger] nc[i]) by {
            if i < oc.len() {
                assert(nc[i] == oc[i]);
            }
        }
        assert forall|i: int| 0 <= i < nc.len() implies match #[trigger] nc[i] {
            ArcRayTracingCommand::SetPushConstant { stages: _, offset: _, size_bytes, values_offset } =>
                values_offset + size_bytes / PUSH_CONSTANT_ALIGNMENT <= new_pass.base->0.push_constant_data@.len(),
            _ => true,
        } by {
            if i < oc.len() {
                assert(nc[i] == oc[i]);
            }
        }
    }
}

} // verus!
