//! Compute passes: recording commands into a pass, and replaying a recorded
//! pass into its encoder with validation.

use vstd::prelude::*;
use crate::resource::ExclusivePipeline;
use vstd::string::StringSliceAdditionalSpecFns;
use crate::global::Global;
use crate::pass::{
    BasePass, BindGroupStateChange, CommandEncoderError, EncoderStateError, PassError, PassErrorScope,
    PassTimestampWrites, StateChange, lock_encoder, lock_encoder_spec, timestamp_writes_check,
    validate_pass_timestamp_writes, bind_group_set_redundant, bind_group_states_after, MAX_BIND_GROUPS,
};
use crate::resource::{
    InvalidResourceError, ResourceKind, PUSH_CONSTANT_ALIGNMENT, SHADER_STAGE_COMPUTE, BUFFER_USAGE_INDIRECT,
    DISPATCH_INDIRECT_ARGS_SIZE, PushConstantRange, BUFFER_USES_INDIRECT, BUFFER_USES_STORAGE_READ_ONLY,
};
use crate::raw::RawCommand;
use crate::global::CommandBuffer;
use crate::pass::{EncoderStatus, DeviceError, unlock_encoder, unlock_encoder_spec};
use crate::replay::{
    LateBindingMismatch, late_mismatch_report,
    ReplayView, ReplayState, StepResult, BoundGroup, initial_view, stepped, set_bind_group_step, push_debug_group_step,
    pop_debug_group_step, insert_debug_marker_step, write_timestamp_step, begin_statistics_step, end_statistics_step,
    rebind_actions, first_incompatible, contains_bits, push_constant_upload_check,
};
use crate::words::{push_constant_words, words_from_bytes};

verus! {

/// Describes a compute pass.
pub struct ComputePassDescriptor {
    pub label: Option<String>,
    /// Where and when timestamp values are written for this pass.
    pub timestamp_writes: Option<PassTimestampWrites>,
}

/// Errors of a dispatch.
#[derive(Clone, Copy, Debug, PartialEq, Eq)]
pub enum DispatchError {
    /// No compute pipeline is set.
    MissingPipeline,
    /// The bind group in the slot does not match the pipeline's layout.
    IncompatibleBindGroup { index: u32 },
    /// A dimension of the workgroup count is over the device limit.
    InvalidGroupSize { current: [u32; 3], limit: u32 },
    /// A late-sized buffer binding is bound with less than the shader needs.
    BindingSizeTooSmall(LateBindingMismatch),
}

/// Error encountered when performing a compute pass.
#[derive(Clone, Copy, Debug, PartialEq, Eq)]
pub enum ComputePassErrorInner {
    EncoderState(EncoderStateError),
    GeneralPass(PassError),
    InvalidParentEncoder,
    UnalignedIndirectBufferOffset(u64),
    IndirectBufferOverrun { offset: u64, end_offset: u64, buffer_size: u64 },
    MissingBufferUsage { buffer: usize, actual: u32, expected: u32 },
    Dispatch(DispatchError),
    PushConstantOffsetAlignment,
    PushConstantSizeAlignment,
    PushConstantOutOfMemory,
    MissingDownlevelFlags,
    PassEnded,
    InvalidResource(InvalidResourceError),
}

/// Error encountered when performing a compute pass, with the operation it
/// was found in.
#[derive(Clone, Copy, Debug, PartialEq, Eq)]
pub struct ComputePassError {
    pub scope: PassErrorScope,
    pub inner: ComputePassErrorInner,
}

/// A command recorded into a compute pass.
#[derive(Clone, Copy, Debug, PartialEq, Eq)]
pub enum ComputeCommand {
    SetBindGroup { index: u32, num_dynamic_offsets: usize, bind_group: Option<usize> },
    SetPipeline(usize),
    /// Upload of `size_bytes` bytes of push constants at byte `offset`, whose
    /// values start at word `values_offset` of the pass's push constant data.
    SetPushConstant { offset: u32, size_bytes: u32, values_offset: u32 },
    Dispatch([u32; 3]),
    DispatchIndirect { buffer: usize, buffer_offset: u64 },
    PushDebugGroup { color: u32, len: usize },
    PopDebugGroup,
    InsertDebugMarker { color: u32, len: usize },
    WriteTimestamp { query_set: usize, query_index: u32 },
    BeginPipelineStatisticsQuery { query_set: usize, query_index: u32 },
    EndPipelineStatisticsQuery,
}

/// A compute pass being recorded.
pub struct ComputePass {
    /// The recorded data; `None` once the pass has ended.
    pub base: Option<BasePass<ComputeCommand>>,
    /// The encoder the pass records into; `None` for an invalid pass.
    pub parent: Option<usize>,
    pub timestamp_writes: Option<PassTimestampWrites>,
    /// Filters redundant bind group settings.
    pub current_bind_groups: BindGroupStateChange,
    /// Filters redundant pipeline settings.
    pub current_pipeline: StateChange,
}

/// A byte count as the `u32` that a recorded command stores (truncated).
pub open spec fn size_as_u32(len: usize) -> u32 {
    #[verifier::truncate]
    (len as u32)
}

/// An error found by a pass operation.
pub open spec fn pass_err(scope: PassErrorScope, inner: ComputePassErrorInner) -> ComputePassError {
    ComputePassError { scope, inner }
}

impl ComputePass {
    /// A pass freshly made by `ComputePass::new`.
    pub open spec fn is_fresh(self, parent: Option<usize>, label: Option<String>, tw: Option<PassTimestampWrites>) -> bool {
        &&& self.base is Some
        &&& self.base->0.label == label
        &&& self.base->0.commands@.len() == 0
        &&& self.base->0.dynamic_offsets@.len() == 0
        &&& self.base->0.string_data@.len() == 0
        &&& self.base->0.push_constant_data@.len() == 0
        &&& self.parent == parent
        &&& self.timestamp_writes == tw
        &&& self.current_bind_groups.last_states@ == Seq::new(MAX_BIND_GROUPS as nat, |i: int| None::<Option<usize>>)
        &&& self.current_pipeline.last_state is None
    }

    /// `new` is `self` with `cmd` recorded, `strings` appended to the label
    /// bytes and `words` to the push constant data; nothing else changes.
    pub open spec fn records(self, new: ComputePass, cmd: ComputeCommand, strings: Seq<u8>, words: Seq<u32>) -> bool {
        &&& self.base is Some
        &&& new.base is Some
        &&& new.base->0.commands@ == self.base->0.commands@.push(cmd)
        &&& new.base->0.string_data@ == self.base->0.string_data@ + strings
        &&& new.base->0.push_constant_data@ == self.base->0.push_constant_data@ + words
        &&& new.base->0.dynamic_offsets@ == self.base->0.dynamic_offsets@
        &&& new.base->0.label == self.base->0.label
        &&& new.parent == self.parent
        &&& new.timestamp_writes == self.timestamp_writes
        &&& new.current_bind_groups.last_states@ == self.current_bind_groups.last_states@
        &&& new.current_pipeline == self.current_pipeline
    }

    /// Makes a pass recording into `parent`; with no parent the pass is invalid.
    pub fn new(parent: Option<usize>, desc: ComputePassDescriptor) -> (p: ComputePass)
        ensures
            p.is_fresh(parent, desc.label, desc.timestamp_writes),
    {
        let ComputePassDescriptor { label, timestamp_writes } = desc;
        ComputePass {
            base: Some(BasePass::new(label)),
            parent,
            timestamp_writes,
            current_bind_groups: BindGroupStateChange::new(),
            current_pipeline: StateChange::new(),
        }
    }

    /// The pass's label, while the pass has not ended.
    pub fn label(&self) -> (r: Option<&str>)
        ensures
            r is Some <==> (self.base is Some && self.base->0.label is Some),
            r is Some ==> r->0@ == self.base->0.label->0@,
    {
        match &self.base {
            Some(base) => match &base.label {
                Some(l) => Some(l.as_str()),
                None => None,
            },
            None => None,
        }
    }

    /// Records `cmd`, appending `strings` to the label bytes.  Fails in
    /// `scope` with `InvalidParentEncoder` for an invalid pass (one without a
    /// parent encoder), and with `PassEnded` when the pass has ended.
    fn record(&mut self, scope: PassErrorScope, cmd: ComputeCommand, strings: &[u8]) -> (r: Result<(), ComputePassError>)
        ensures
            old(self).parent is None ==> r == Err::<(), _>(pass_err(scope, ComputePassErrorInner::InvalidParentEncoder))
                && *final(self) == *old(self),
            old(self).parent is Some && old(self).base is None ==> r == Err::<(), _>(pass_err(scope, ComputePassErrorInner::PassEnded))
                && *final(self) == *old(self),
            old(self).parent is Some && old(self).base is Some ==> r is Ok && old(self).records(*final(self), cmd, strings@, Seq::empty()),
    {
        if self.parent.is_none() {
            return Err(ComputePassError { scope, inner: ComputePassErrorInner::InvalidParentEncoder });
        }
        match &mut self.base {
            Some(base) => {
                base.commands.push(cmd);
                base.string_data.extend_from_slice(strings);
                assert(base.string_data@ =~= old(self).base->0.string_data@ + strings@);
                assert(base.push_constant_data@ =~= old(self).base->0.push_constant_data@ + Seq::<u32>::empty());
                Ok(())
            },
            None => Err(ComputePassError { scope, inner: ComputePassErrorInner::PassEnded }),
        }
    }
}

impl Global {
    /// Begins a compute pass on encoder `encoder_id`.
    ///
    /// The encoder is locked first; if it cannot be, the pass is invalid (it
    /// has no parent) and the lock error is returned.  Then the timestamp
    /// writes are validated; if they are not valid the pass is invalid and the
    /// encoder stays locked.
    pub fn command_encoder_begin_compute_pass(&mut self, encoder_id: usize, desc: &ComputePassDescriptor) -> (r: (
        ComputePass,
        Option<CommandEncoderError>,
    ))
        requires
            old(self).well_formed(),
            encoder_id < old(self).command_buffers@.len(),
            desc.timestamp_writes is Some ==> old(self).query_sets.has_id(desc.timestamp_writes->0.query_set),
        ensures
            ({
                let cb = old(self).command_buffers@[encoder_id as int];
                let (status, lock) = lock_encoder_spec(cb.status);
                let device = old(self).devices@[cb.device as int];
                &&& final(self).command_buffers@ == old(self).command_buffers@.update(
                    encoder_id as int,
                    crate::global::CommandBuffer { status, ..cb },
                )
                &&& final(self).same_resources(*old(self))
                &&& final(self).compute_pass_invariant(r.0)
                &&& if lock is Err {
                    r.0.is_fresh(None, desc.label, None) && r.1 == Some(CommandEncoderError::State(lock->Err_0))
                } else if desc.timestamp_writes is Some && timestamp_writes_check(
                    device,
                    cb.device,
                    old(self).query_sets,
                    desc.timestamp_writes->0,
                ) is Err {
                    r.0.is_fresh(None, desc.label, None) && r.1 == Some(
                        timestamp_writes_check(device, cb.device, old(self).query_sets, desc.timestamp_writes->0)->Err_0,
                    )
                } else {
                    r.0.is_fresh(Some(encoder_id), desc.label, desc.timestamp_writes) && r.1 is None
                }
            }),
    {
        let label = match &desc.label {
            Some(l) => Some(l.clone()),
            None => None,
        };
        let device_id = self.command_buffers[encoder_id].device;
        let (status, lock) = lock_encoder(self.command_buffers[encoder_id].status);
        self.set_encoder_status(encoder_id, status);
        if let Err(e) = lock {
            let pass = ComputePass::new(None, ComputePassDescriptor { label, timestamp_writes: None });
            return (pass, Some(CommandEncoderError::State(e)));
        }
        let timestamp_writes = match &desc.timestamp_writes {
            Some(tw) => match validate_pass_timestamp_writes(&self.devices[device_id], device_id, &self.query_sets, tw) {
                Ok(v) => Some(v),
                Err(e) => {
                    let pass = ComputePass::new(None, ComputePassDescriptor { label, timestamp_writes: None });
                    return (pass, Some(e));
                },
            },
            None => None,
        };
        (ComputePass::new(Some(encoder_id), ComputePassDescriptor { label, timestamp_writes }), None)
    }

    /// Records the setting of bind group slot `index` to `bind_group_id`
    /// (or to no bind group), with the dynamic offsets `offsets`.
    ///
    /// Once the pass has not ended, the redundancy filter is updated and the
    /// offsets are stored even when the setting is then dropped as redundant
    /// or fails on an invalid bind group.
    pub fn compute_pass_set_bind_group(
        &self,
        pass: &mut ComputePass,
        index: u32,
        bind_group_id: Option<usize>,
        offsets: &[u32],
    ) -> (r: Result<(), ComputePassError>)
        requires
            bind_group_id is Some ==> self.bind_groups.has_id(bind_group_id->0),
        ensures
            old(pass).parent is None ==> r == Err::<(), _>(pass_err(PassErrorScope::SetBindGroup, ComputePassErrorInner::InvalidParentEncoder))
                && *final(pass) == *old(pass),
            old(pass).parent is Some && old(pass).base is None ==> r == Err::<(), _>(pass_err(PassErrorScope::SetBindGroup, ComputePassErrorInner::PassEnded))
                && *final(pass) == *old(pass),
            old(pass).parent is Some && old(pass).base is Some ==> {
                let redundant = bind_group_set_redundant(
                    old(pass).current_bind_groups.last_states@,
                    bind_group_id,
                    index,
                    offsets@.len() == 0,
                );
                let invalid = bind_group_id is Some && !self.bind_groups.is_valid(bind_group_id->0);
                &&& final(pass).base is Some
                &&& final(pass).current_bind_groups.last_states@ == bind_group_states_after(
                    old(pass).current_bind_groups.last_states@,
                    bind_group_id,
                    index,
                    offsets@.len() == 0,
                )
                &&& final(pass).base->0.dynamic_offsets@ == old(pass).base->0.dynamic_offsets@ + offsets@
                &&& final(pass).base->0.string_data@ == old(pass).base->0.string_data@
                &&& final(pass).base->0.push_constant_data@ == old(pass).base->0.push_constant_data@
                &&& final(pass).base->0.label == old(pass).base->0.label
                &&& final(pass).parent == old(pass).parent
                &&& final(pass).timestamp_writes == old(pass).timestamp_writes
                &&& final(pass).current_pipeline == old(pass).current_pipeline
                &&& if redundant {
                    r is Ok && final(pass).base->0.commands@ == old(pass).base->0.commands@
                } else if invalid {
                    r == Err::<(), _>(pass_err(
                        PassErrorScope::SetBindGroup,
                        ComputePassErrorInner::InvalidResource(
                            InvalidResourceError { kind: ResourceKind::BindGroup, id: bind_group_id->0 },
                        ),
                    )) && final(pass).base->0.commands@ == old(pass).base->0.commands@
                } else {
                    r is Ok && final(pass).base->0.commands@ == old(pass).base->0.commands@.push(
                        ComputeCommand::SetBindGroup { index, num_dynamic_offsets: offsets@.len() as usize, bind_group: bind_group_id },
                    )
                }
            },
            self.compute_pass_invariant(*old(pass)) ==> self.compute_pass_invariant(*final(pass)),
    {
        let scope = PassErrorScope::SetBindGroup;
        if pass.parent.is_none() {
            return Err(ComputePassError { scope: scope, inner: ComputePassErrorInner::InvalidParentEncoder });
        }
        let ghost mut recorded: Option<ComputeCommand> = None;
        let r = match &mut pass.base {
            None => Err(ComputePassError { scope, inner: ComputePassErrorInner::PassEnded }),
            Some(base) => {
                let redundant = pass.current_bind_groups.set_and_check_redundant(
                    bind_group_id,
                    index,
                    &mut base.dynamic_offsets,
                    offsets,
                );
                if redundant {
                    Ok(())
                } else {
                    let invalid = match bind_group_id {
                        Some(id) => match self.bind_groups.get(id, ResourceKind::BindGroup) {
                            Err(e) => Some(e),
                            Ok(_) => None,
                        },
                        None => None,
                    };
                    match invalid {
                        Some(e) => Err(ComputePassError { scope, inner: ComputePassErrorInner::InvalidResource(e) }),
                        None => {
                            let cmd = ComputeCommand::SetBindGroup {
                                index,
                                num_dynamic_offsets: offsets.len(),
                                bind_group: bind_group_id,
                            };
                            base.commands.push(cmd);
                            proof { recorded = Some(cmd); }
                            Ok(())
                        },
                    }
                }
            },
        };
        proof {
            if self.compute_pass_invariant(*old(pass)) && old(pass).base is Some {
                lemma_set_bind_group_keeps_invariant(*self, *old(pass), *pass, offsets@, recorded);
            }
        }
        r
    }

    /// Records the setting of the compute pipeline `pipeline_id`.
    ///
    /// The redundancy filter is updated first, even when the pass has ended;
    /// a redundant setting is dropped once the pass is known not to have ended.
    pub fn compute_pass_set_pipeline(&self, pass: &mut ComputePass, pipeline_id: usize) -> (r: Result<
        (),
        ComputePassError,
    >)
        requires
            self.compute_pipelines.has_id(pipeline_id),
        ensures
            old(pass).parent is Some ==> final(pass).current_pipeline.last_state == Some(pipeline_id),
            old(pass).parent is None ==> r == Err::<(), _>(pass_err(
                PassErrorScope::SetPipelineCompute, ComputePassErrorInner::InvalidParentEncoder))
                && *final(pass) == *old(pass),
            old(pass).parent is Some && old(pass).base is None ==> r == Err::<(), _>(pass_err(
                PassErrorScope::SetPipelineCompute, ComputePassErrorInner::PassEnded,
            )) && final(pass).base == old(pass).base,
            old(pass).parent is Some && old(pass).base is Some ==> {
                let redundant = old(pass).current_pipeline.last_state == Some(pipeline_id);
                let kept = ComputePass { current_pipeline: final(pass).current_pipeline, ..*old(pass) };
                if redundant {
                    r is Ok && *final(pass) == kept
                } else if !self.compute_pipelines.is_valid(pipeline_id) {
                    r == Err::<(), _>(pass_err(
                        PassErrorScope::SetPipelineCompute,
                        ComputePassErrorInner::InvalidResource(
                            InvalidResourceError { kind: ResourceKind::ComputePipeline, id: pipeline_id },
                        ),
                    )) && *final(pass) == kept
                } else {
                    r is Ok && kept.records(*final(pass), ComputeCommand::SetPipeline(pipeline_id), Seq::empty(), Seq::empty())
                }
            },
            final(pass).parent == old(pass).parent,
            final(pass).timestamp_writes == old(pass).timestamp_writes,
            final(pass).current_bind_groups.last_states@ == old(pass).current_bind_groups.last_states@,
            self.compute_pass_invariant(*old(pass)) ==> self.compute_pass_invariant(*final(pass)),
    {
        if pass.parent.is_none() {
            return Err(ComputePassError { scope: PassErrorScope::SetPipelineCompute, inner: ComputePassErrorInner::InvalidParentEncoder });
        }
        let redundant = pass.current_pipeline.set_and_check_redundant(pipeline_id);
        let scope = PassErrorScope::SetPipelineCompute;
        if pass.base.is_none() {
            return Err(ComputePassError { scope, inner: ComputePassErrorInner::PassEnded });
        }
        if redundant {
            return Ok(());
        }
        if let Err(e) = self.compute_pipelines.get(pipeline_id, ResourceKind::ComputePipeline) {
            return Err(ComputePassError { scope, inner: ComputePassErrorInner::InvalidResource(e) });
        }
        let ghost kept = *pass;
        let r = pass.record(scope, ComputeCommand::SetPipeline(pipeline_id), &[]);
        proof {
            if self.compute_pass_invariant(*old(pass)) {
                assert(self.compute_pass_invariant(kept));
                lemma_record_keeps_invariant(*self, kept, *pass, ComputeCommand::SetPipeline(pipeline_id), Seq::empty(), Seq::empty());
            }
        }
        r
    }

    /// Records an upload of the push constant bytes `data` at byte `offset`.
    /// The offset and the size (as `u32`) must be multiples of four, and
    /// the upload must end within `u32` (else `PushConstantOutOfMemory`, as
    /// when the pass's push constant data is full); the bytes are stored as
    /// words in the machine's byte order.
    pub fn compute_pass_set_push_constants(&self, pass: &mut ComputePass, offset: u32, data: &[u8]) -> (r: Result<
        (),
        ComputePassError,
    >)
        ensures
            ({
                let scope = PassErrorScope::SetPushConstant;
                if old(pass).parent is None {
                    r == Err::<(), _>(pass_err(scope, ComputePassErrorInner::InvalidParentEncoder)) && *final(pass) == *old(pass)
                } else if old(pass).base is None {
                    r == Err::<(), _>(pass_err(scope, ComputePassErrorInner::PassEnded)) && *final(pass) == *old(pass)
                } else if offset % PUSH_CONSTANT_ALIGNMENT != 0 {
                    r == Err::<(), _>(pass_err(scope, ComputePassErrorInner::PushConstantOffsetAlignment))
                        && *final(pass) == *old(pass)
                } else if size_as_u32(data@.len() as usize) % PUSH_CONSTANT_ALIGNMENT != 0 {
                    r == Err::<(), _>(pass_err(scope, ComputePassErrorInner::PushConstantSizeAlignment))
                        && *final(pass) == *old(pass)
                } else if old(pass).base->0.push_constant_data@.len() > u32::MAX || offset + size_as_u32(data@.len() as usize)
                    > u32::MAX {
                    r == Err::<(), _>(pass_err(scope, ComputePassErrorInner::PushConstantOutOfMemory))
                        && *final(pass) == *old(pass)
                } else {
                    &&& r is Ok
                    &&& exists|words: Seq<u32>| #[trigger] push_constant_words(data@, words)
                        && old(pass).records(
                        *final(pass),
                        ComputeCommand::SetPushConstant {
                            offset,
                            size_bytes: size_as_u32(data@.len() as usize),
                            values_offset: old(pass).base->0.push_constant_data@.len() as u32,
                        },
                        Seq::empty(),
                        words,
                    )
                }
            }),
            self.compute_pass_invariant(*old(pass)) ==> self.compute_pass_invariant(*final(pass)),
    {
        let scope = PassErrorScope::SetPushConstant;
        if pass.parent.is_none() {
            return Err(ComputePassError { scope: scope, inner: ComputePassErrorInner::InvalidParentEncoder });
        }
        let ghost mut recorded: Option<(ComputeCommand, Seq<u32>)> = None;
        let r = match &mut pass.base {
            None => Err(ComputePassError { scope, inner: ComputePassErrorInner::PassEnded }),
            Some(base) => {
                assert(offset & 3 == 0 <==> offset % 4 == 0) by (bit_vector);
                let dl = data.len();
                #[verifier::truncate]
                let size_bytes = dl as u32;
                assert(size_bytes == size_as_u32(data@.len() as usize));
                assert(size_bytes & 3 == 0 <==> size_bytes % 4 == 0) by (bit_vector);
                assert(size_bytes as usize <= dl) by (bit_vector)
                    requires
                        size_bytes == #[verifier::truncate] (dl as u32),
                ;
                if offset & (PUSH_CONSTANT_ALIGNMENT - 1) != 0 {
                    Err(ComputePassError { scope, inner: ComputePassErrorInner::PushConstantOffsetAlignment })
                } else if size_bytes & (PUSH_CONSTANT_ALIGNMENT - 1) != 0 {
                    Err(ComputePassError { scope, inner: ComputePassErrorInner::PushConstantSizeAlignment })
                } else if base.push_constant_data.len() > u32::MAX as usize || offset as u64 + size_bytes as u64 > u32::MAX as u64 {
                    Err(ComputePassError { scope, inner: ComputePassErrorInner::PushConstantOutOfMemory })
                } else {
                    let values_offset = base.push_constant_data.len() as u32;
                    let mut words = words_from_bytes(data);
                    let ghost w = words@;
                    base.push_constant_data.append(&mut words);
                    let cmd = ComputeCommand::SetPushConstant { offset, size_bytes, values_offset };
                    base.commands.push(cmd);
                    assert(base.string_data@ =~= old(pass).base->0.string_data@ + Seq::<u8>::empty());
                    proof { recorded = Some((cmd, w)); }
                    Ok(())
                }
            },
        };
        proof {
            if self.compute_pass_invariant(*old(pass)) && recorded is Some {
                let (cmd, w) = recorded->0;
                lemma_record_keeps_invariant(*self, *old(pass), *pass, cmd, Seq::empty(), w);
            }
        }
        r
    }

    /// Records a dispatch of `groups_x * groups_y * groups_z` workgroups.
    pub fn compute_pass_dispatch_workgroups(
        &self,
        pass: &mut ComputePass,
        groups_x: u32,
        groups_y: u32,
        groups_z: u32,
    ) -> (r: Result<(), ComputePassError>)
        ensures
            old(pass).parent is None ==> r == Err::<(), _>(pass_err(
                PassErrorScope::Dispatch { indirect: false }, ComputePassErrorInner::InvalidParentEncoder))
                && *final(pass) == *old(pass),
            old(pass).parent is Some && old(pass).base is None ==> r == Err::<(), _>(pass_err(
                PassErrorScope::Dispatch { indirect: false }, ComputePassErrorInner::PassEnded,
            )) && *final(pass) == *old(pass),
            old(pass).parent is Some && old(pass).base is Some ==> r is Ok && old(pass).records(
                *final(pass),
                ComputeCommand::Dispatch([groups_x, groups_y, groups_z]),
                Seq::empty(),
                Seq::empty(),
            ),
            self.compute_pass_invariant(*old(pass)) ==> self.compute_pass_invariant(*final(pass)),
    {
        let r = pass.record(PassErrorScope::Dispatch { indirect: false }, ComputeCommand::Dispatch([groups_x, groups_y, groups_z]), &[]);
        proof {
            if self.compute_pass_invariant(*old(pass)) && r is Ok {
                lemma_record_keeps_invariant(*self, *old(pass), *pass, ComputeCommand::Dispatch([groups_x, groups_y, groups_z]), Seq::empty(), Seq::empty());
            }
        }
        r
    }

    /// Records an indirect dispatch reading its arguments from `buffer_id` at `offset`.
    pub fn compute_pass_dispatch_workgroups_indirect(&self, pass: &mut ComputePass, buffer_id: usize, offset: u64) -> (r:
        Result<(), ComputePassError>)
        requires
            self.buffers.has_id(buffer_id),
        ensures
            ({
                let scope = PassErrorScope::Dispatch { indirect: true };
                if old(pass).parent is None {
                    r == Err::<(), _>(pass_err(scope, ComputePassErrorInner::InvalidParentEncoder)) && *final(pass) == *old(pass)
                } else if old(pass).base is None {
                    r == Err::<(), _>(pass_err(scope, ComputePassErrorInner::PassEnded)) && *final(pass) == *old(pass)
                } else if !self.buffers.is_valid(buffer_id) {
                    r == Err::<(), _>(pass_err(
                        scope,
                        ComputePassErrorInner::InvalidResource(InvalidResourceError { kind: ResourceKind::Buffer, id: buffer_id }),
                    )) && *final(pass) == *old(pass)
                } else {
                    r is Ok && old(pass).records(
                        *final(pass),
                        ComputeCommand::DispatchIndirect { buffer: buffer_id, buffer_offset: offset },
                        Seq::empty(),
                        Seq::empty(),
                    )
                }
            }),
            self.compute_pass_invariant(*old(pass)) ==> self.compute_pass_invariant(*final(pass)),
    {
        let scope = PassErrorScope::Dispatch { indirect: true };
        if pass.parent.is_none() {
            return Err(ComputePassError { scope: scope, inner: ComputePassErrorInner::InvalidParentEncoder });
        }
        if pass.base.is_none() {
            return Err(ComputePassError { scope, inner: ComputePassErrorInner::PassEnded });
        }
        if let Err(e) = self.buffers.get(buffer_id, ResourceKind::Buffer) {
            return Err(ComputePassError { scope, inner: ComputePassErrorInner::InvalidResource(e) });
        }
        let r = pass.record(scope, ComputeCommand::DispatchIndirect { buffer: buffer_id, buffer_offset: offset }, &[]);
        proof {
            if self.compute_pass_invariant(*old(pass)) && r is Ok {
                lemma_record_keeps_invariant(*self, *old(pass), *pass, ComputeCommand::DispatchIndirect { buffer: buffer_id, buffer_offset: offset }, Seq::empty(), Seq::empty());
            }
        }
        r
    }

    /// Records the opening of a debug group labelled `label`.
    pub fn compute_pass_push_debug_group(&self, pass: &mut ComputePass, label: &str, color: u32) -> (r: Result<
        (),
        ComputePassError,
    >)
        ensures
            old(pass).parent is None ==> r == Err::<(), _>(pass_err(PassErrorScope::PushDebugGroup, ComputePassErrorInner::InvalidParentEncoder))
                && *final(pass) == *old(pass),
            old(pass).parent is Some && old(pass).base is None ==> r == Err::<(), _>(pass_err(PassErrorScope::PushDebugGroup, ComputePassErrorInner::PassEnded))
                && *final(pass) == *old(pass),
            old(pass).parent is Some && old(pass).base is Some ==> r is Ok && old(pass).records(
                *final(pass),
                ComputeCommand::PushDebugGroup { color, len: label.spec_bytes().len() as usize },
                label.spec_bytes(),
                Seq::empty(),
            ),
            self.compute_pass_invariant(*old(pass)) ==> self.compute_pass_invariant(*final(pass)),
    {
        let bytes = label.as_bytes();
        let r = pass.record(PassErrorScope::PushDebugGroup, ComputeCommand::PushDebugGroup { color, len: bytes.len() }, bytes);
        proof {
            if self.compute_pass_invariant(*old(pass)) && r is Ok {
                lemma_record_keeps_invariant(*self, *old(pass), *pass, ComputeCommand::PushDebugGroup { color, len: bytes@.len() as usize }, bytes@, Seq::empty());
            }
        }
        r
    }

    /// Records the closing of the innermost debug group.
    pub fn compute_pass_pop_debug_group(&self, pass: &mut ComputePass) -> (r: Result<(), ComputePassError>)
        ensures
            old(pass).parent is None ==> r == Err::<(), _>(pass_err(PassErrorScope::PopDebugGroup, ComputePassErrorInner::InvalidParentEncoder))
                && *final(pass) == *old(pass),
            old(pass).parent is Some && old(pass).base is None ==> r == Err::<(), _>(pass_err(PassErrorScope::PopDebugGroup, ComputePassErrorInner::PassEnded))
                && *final(pass) == *old(pass),
            old(pass).parent is Some && old(pass).base is Some ==> r is Ok && old(pass).records(
                *final(pass),
                ComputeCommand::PopDebugGroup,
                Seq::empty(),
                Seq::empty(),
            ),
            self.compute_pass_invariant(*old(pass)) ==> self.compute_pass_invariant(*final(pass)),
    {
        let r = pass.record(PassErrorScope::PopDebugGroup, ComputeCommand::PopDebugGroup, &[]);
        proof {
            if self.compute_pass_invariant(*old(pass)) && r is Ok {
                lemma_record_keeps_invariant(*self, *old(pass), *pass, ComputeCommand::PopDebugGroup, Seq::empty(), Seq::empty());
            }
        }
        r
    }

    /// Records a debug marker labelled `label`.
    pub fn compute_pass_insert_debug_marker(&self, pass: &mut ComputePass, label: &str, color: u32) -> (r: Result<
        (),
        ComputePassError,
    >)
        ensures
            old(pass).parent is None ==> r == Err::<(), _>(pass_err(PassErrorScope::InsertDebugMarker, ComputePassErrorInner::InvalidParentEncoder))
                && *final(pass) == *old(pass),
            old(pass).parent is Some && old(pass).base is None ==> r == Err::<(), _>(pass_err(PassErrorScope::InsertDebugMarker, ComputePassErrorInner::PassEnded))
                && *final(pass) == *old(pass),
            old(pass).parent is Some && old(pass).base is Some ==> r is Ok && old(pass).records(
                *final(pass),
                ComputeCommand::InsertDebugMarker { color, len: label.spec_bytes().len() as usize },
                label.spec_bytes(),
                Seq::empty(),
            ),
            self.compute_pass_invariant(*old(pass)) ==> self.compute_pass_invariant(*final(pass)),
    {
        let bytes = label.as_bytes();
        let r = pass.record(PassErrorScope::InsertDebugMarker, ComputeCommand::InsertDebugMarker { color, len: bytes.len() }, bytes);
        proof {
            if self.compute_pass_invariant(*old(pass)) && r is Ok {
                lemma_record_keeps_invariant(*self, *old(pass), *pass, ComputeCommand::InsertDebugMarker { color, len: bytes@.len() as usize }, bytes@, Seq::empty());
            }
        }
        r
    }

    /// Records a timestamp write into query `query_index` of `query_set_id`.
    pub fn compute_pass_write_timestamp(&self, pass: &mut ComputePass, query_set_id: usize, query_index: u32) -> (r:
        Result<(), ComputePassError>)
        requires
            self.query_sets.has_id(query_set_id),
        ensures
            self.query_command_recorded(
                *old(pass),
                *final(pass),
                r,
                PassErrorScope::WriteTimestamp,
                query_set_id,
                ComputeCommand::WriteTimestamp { query_set: query_set_id, query_index },
            ),
            self.compute_pass_invariant(*old(pass)) ==> self.compute_pass_invariant(*final(pass)),
    {
        self.record_query_command(
            pass,
            PassErrorScope::WriteTimestamp,
            query_set_id,
            ComputeCommand::WriteTimestamp { query_set: query_set_id, query_index },
        )
    }

    /// Records the beginning of pipeline statistics query `query_index` of `query_set_id`.
    pub fn compute_pass_begin_pipeline_statistics_query(
        &self,
        pass: &mut ComputePass,
        query_set_id: usize,
        query_index: u32,
    ) -> (r: Result<(), ComputePassError>)
        requires
            self.query_sets.has_id(query_set_id),
        ensures
            self.query_command_recorded(
                *old(pass),
                *final(pass),
                r,
                PassErrorScope::BeginPipelineStatisticsQuery,
                query_set_id,
                ComputeCommand::BeginPipelineStatisticsQuery { query_set: query_set_id, query_index },
            ),
            self.compute_pass_invariant(*old(pass)) ==> self.compute_pass_invariant(*final(pass)),
    {
        self.record_query_command(
            pass,
            PassErrorScope::BeginPipelineStatisticsQuery,
            query_set_id,
            ComputeCommand::BeginPipelineStatisticsQuery { query_set: query_set_id, query_index },
        )
    }

    /// Records the end of the active pipeline statistics query.
    pub fn compute_pass_end_pipeline_statistics_query(&self, pass: &mut ComputePass) -> (r: Result<(), ComputePassError>)
        ensures
            old(pass).parent is None ==> r == Err::<(), _>(pass_err(
                PassErrorScope::EndPipelineStatisticsQuery, ComputePassErrorInner::InvalidParentEncoder))
                && *final(pass) == *old(pass),
            old(pass).parent is Some && old(pass).base is None ==> r == Err::<(), _>(pass_err(
                PassErrorScope::EndPipelineStatisticsQuery, ComputePassErrorInner::PassEnded,
            )) && *final(pass) == *old(pass),
            old(pass).parent is Some && old(pass).base is Some ==> r is Ok && old(pass).records(
                *final(pass),
                ComputeCommand::EndPipelineStatisticsQuery,
                Seq::empty(),
                Seq::empty(),
            ),
            self.compute_pass_invariant(*old(pass)) ==> self.compute_pass_invariant(*final(pass)),
    {
        let r = pass.record(PassErrorScope::EndPipelineStatisticsQuery, ComputeCommand::EndPipelineStatisticsQuery, &[]);
        proof {
            if self.compute_pass_invariant(*old(pass)) && r is Ok {
                lemma_record_keeps_invariant(*self, *old(pass), *pass, ComputeCommand::EndPipelineStatisticsQuery, Seq::empty(), Seq::empty());
            }
        }
        r
    }

    /// What recording a command that names a query set does: fail when the
    /// pass has ended, then when the query set is invalid; else record `cmd`.
    pub open spec fn query_command_recorded(
        &self,
        old_pass: ComputePass,
        new_pass: ComputePass,
        r: Result<(), ComputePassError>,
        scope: PassErrorScope,
        query_set_id: usize,
        cmd: ComputeCommand,
    ) -> bool {
        if old_pass.parent is None {
            r == Err::<(), _>(pass_err(scope, ComputePassErrorInner::InvalidParentEncoder)) && new_pass == old_pass
        } else if old_pass.base is None {
            r == Err::<(), _>(pass_err(scope, ComputePassErrorInner::PassEnded)) && new_pass == old_pass
        } else if !self.query_sets.is_valid(query_set_id) {
            r == Err::<(), _>(pass_err(
                scope,
                ComputePassErrorInner::InvalidResource(InvalidResourceError { kind: ResourceKind::QuerySet, id: query_set_id }),
            )) && new_pass == old_pass
        } else {
            r is Ok && old_pass.records(new_pass, cmd, Seq::empty(), Seq::empty())
        }
    }

    fn record_query_command(&self, pass: &mut ComputePass, scope: PassErrorScope, query_set_id: usize, cmd: ComputeCommand) -> (r:
        Result<(), ComputePassError>)
        requires
            self.query_sets.has_id(query_set_id),
            cmd is WriteTimestamp || cmd is BeginPipelineStatisticsQuery,
            cmd matches ComputeCommand::WriteTimestamp { query_set, query_index: _ } ==> query_set == query_set_id,
            cmd matches ComputeCommand::BeginPipelineStatisticsQuery { query_set, query_index: _ } ==> query_set == query_set_id,
        ensures
            self.query_command_recorded(*old(pass), *final(pass), r, scope, query_set_id, cmd),
            self.compute_pass_invariant(*old(pass)) ==> self.compute_pass_invariant(*final(pass)),
    {
        if pass.parent.is_none() {
            return Err(ComputePassError { scope: scope, inner: ComputePassErrorInner::InvalidParentEncoder });
        }
        if pass.base.is_none() {
            return Err(ComputePassError { scope, inner: ComputePassErrorInner::PassEnded });
        }
        if let Err(e) = self.query_sets.get(query_set_id, ResourceKind::QuerySet) {
            return Err(ComputePassError { scope, inner: ComputePassErrorInner::InvalidResource(e) });
        }
        let r = pass.record(scope, cmd, &[]);
        proof {
            if self.compute_pass_invariant(*old(pass)) && r is Ok {
                lemma_record_keeps_invariant(*self, *old(pass), *pass, cmd, Seq::empty(), Seq::empty());
            }
        }
        r
    }
}


/// Words of compute push constant storage that a layout gives: the length of
/// its first range that includes the compute stage, in words.
pub open spec fn compute_push_constant_words(ranges: Seq<PushConstantRange>) -> nat
    decreases ranges.len(),
{
    if ranges.len() == 0 {
        0
    } else if contains_bits(ranges[0].stages, SHADER_STAGE_COMPUTE) {
        if ranges[0].end >= ranges[0].start { ((ranges[0].end - ranges[0].start) / 4) as nat } else { 0 }
    } else {
        compute_push_constant_words(ranges.drop_first())
    }
}

/// Why a dispatch cannot run: no pipeline, or a slot of the pipeline's layout
/// without a matching bind group.
pub open spec fn dispatch_readiness(g: Global, s: ReplayView) -> Result<(), DispatchError> {
    match s.pipeline {
        None => Err(DispatchError::MissingPipeline),
        Some(p) => {
            let layouts = g.pipeline_layouts.data(g.compute_pipelines.data(p).layout).bind_group_layouts@;
            match first_incompatible(g, s.bound, layouts, ExclusivePipeline::Compute(p), layouts.len()) {
                Some(i) => Err(DispatchError::IncompatibleBindGroup { index: i as u32 }),
                None => match late_mismatch_report(
                    g,
                    s.bound,
                    g.compute_pipelines.data(p).late_sized_buffer_groups@.map_values(|v: Vec<u64>| v@),
                ) {
                    Some(m) => Err(DispatchError::BindingSizeTooSmall(m)),
                    None => Ok(()),
                },
            }
        },
    }
}

/// The commands of an indirect dispatch, with or without GPU validation of
/// its arguments.
pub open spec fn dispatch_indirect_actions(g: Global, dev: usize, s: ReplayView, buffer: usize, offset: u64) -> Seq<RawCommand> {
    seq![RawCommand::RequireInitializedMemory { buffer, start: offset, end: (offset + DISPATCH_INDIRECT_ARGS_SIZE) as u64 }]
        + dispatch_indirect_body(g, dev, s, buffer, offset)
}

/// The commands of an indirect dispatch after its memory requirement: with
/// validation the arguments are validated (reading the buffer as read-only
/// storage) and the state restored; without, the buffer is used as
/// indirect buffer.
pub open spec fn dispatch_indirect_body(g: Global, dev: usize, s: ReplayView, buffer: usize, offset: u64) -> Seq<RawCommand> {
    if g.devices@[dev as int].indirect_validation {
        let p = s.pipeline->0;
        let n = g.pipeline_layouts.data(g.compute_pipelines.data(p).layout).bind_group_layouts@.len();
        seq![
            RawCommand::ValidateIndirectDispatch { buffer, offset },
            RawCommand::UseBuffer { buffer, usage: BUFFER_USES_STORAGE_READ_ONLY },
            RawCommand::SetComputePipeline { pipeline: p },
        ]
            + (if s.push_constants_len > 0 { seq![RawCommand::RestorePushConstants { len: s.push_constants_len as usize }] } else { Seq::empty() })
            + rebind_actions(s.bound, n)
            + seq![RawCommand::DispatchValidatedIndirect]
    } else {
        seq![RawCommand::UseBuffer { buffer, usage: BUFFER_USES_INDIRECT }, RawCommand::DispatchIndirect { buffer, offset }]
    }
}

/// Replaying one compute command.
pub open spec fn compute_step(g: Global, dev: usize, s: ReplayView, cmd: ComputeCommand) -> StepResult<ComputePassError> {
    let device = g.devices@[dev as int];
    match cmd {
        ComputeCommand::SetBindGroup { index, num_dynamic_offsets, bind_group } =>
            match set_bind_group_step(g, dev, s, index, num_dynamic_offsets, bind_group) {
                Ok(r) => Ok(r),
                Err(e) => Err(pass_err(PassErrorScope::SetBindGroup, ComputePassErrorInner::GeneralPass(e))),
            },
        ComputeCommand::SetPipeline(p) => {
            let pl = g.compute_pipelines.data(p);
            if pl.device != dev {
                Err(pass_err(
                    PassErrorScope::SetPipelineCompute,
                    ComputePassErrorInner::GeneralPass(PassError::Device(DeviceError::DeviceMismatch { kind: ResourceKind::ComputePipeline, id: p })),
                ))
            } else if s.layout == Some(pl.layout) {
                Ok((ReplayView { pipeline: Some(p), ..s }, seq![RawCommand::SetComputePipeline { pipeline: p }]))
            } else {
                let layout = g.pipeline_layouts.data(pl.layout);
                Ok((
                    ReplayView {
                        pipeline: Some(p),
                        layout: Some(pl.layout),
                        push_constants_len: compute_push_constant_words(layout.push_constant_ranges@),
                        ..s
                    },
                    seq![RawCommand::SetComputePipeline { pipeline: p }] + rebind_actions(s.bound, layout.bind_group_layouts@.len()),
                ))
            }
        },
        ComputeCommand::SetPushConstant { offset, size_bytes, values_offset } => {
            let scope = PassErrorScope::SetPushConstant;
            match s.layout {
                None => Err(pass_err(scope, ComputePassErrorInner::GeneralPass(PassError::MissingPipeline))),
                Some(l) => match push_constant_upload_check(
                    g.pipeline_layouts.data(l).push_constant_ranges@,
                    SHADER_STAGE_COMPUTE,
                    offset,
                    (offset + size_bytes) as u32,
                ) {
                    Err(e) => Err(pass_err(scope, ComputePassErrorInner::GeneralPass(PassError::PushConstants(e)))),
                    Ok(_) => Ok((s, seq![RawCommand::SetPushConstants {
                        stages: SHADER_STAGE_COMPUTE,
                        byte_offset: offset,
                        values_start: values_offset as usize,
                        values_len: (size_bytes / PUSH_CONSTANT_ALIGNMENT) as usize,
                    }])),
                },
            }
        },
        ComputeCommand::Dispatch(groups) => {
            let scope = PassErrorScope::Dispatch { indirect: false };
            let limit = device.limits.max_compute_workgroups_per_dimension;
            if dispatch_readiness(g, s) is Err {
                Err(pass_err(scope, ComputePassErrorInner::Dispatch(dispatch_readiness(g, s)->Err_0)))
            } else if groups[0] > limit || groups[1] > limit || groups[2] > limit {
                Err(pass_err(scope, ComputePassErrorInner::Dispatch(DispatchError::InvalidGroupSize { current: groups, limit })))
            } else {
                Ok((s, seq![RawCommand::Dispatch { groups }]))
            }
        },
        ComputeCommand::DispatchIndirect { buffer, buffer_offset } => {
            let scope = PassErrorScope::Dispatch { indirect: true };
            let buf = g.buffers.data(buffer);
            if buf.device != dev {
                Err(pass_err(
                    scope,
                    ComputePassErrorInner::GeneralPass(PassError::Device(DeviceError::DeviceMismatch { kind: ResourceKind::Buffer, id: buffer })),
                ))
            } else if dispatch_readiness(g, s) is Err {
                Err(pass_err(scope, ComputePassErrorInner::Dispatch(dispatch_readiness(g, s)->Err_0)))
            } else if !device.indirect_execution {
                Err(pass_err(scope, ComputePassErrorInner::MissingDownlevelFlags))
            } else if !contains_bits(buf.usage, BUFFER_USAGE_INDIRECT) {
                Err(pass_err(scope, ComputePassErrorInner::MissingBufferUsage { buffer, actual: buf.usage, expected: BUFFER_USAGE_INDIRECT }))
            } else if buf.destroyed {
                Err(pass_err(scope, ComputePassErrorInner::GeneralPass(PassError::DestroyedResource { kind: ResourceKind::Buffer, id: buffer })))
            } else if buffer_offset % 4 != 0 {
                Err(pass_err(scope, ComputePassErrorInner::UnalignedIndirectBufferOffset(buffer_offset)))
            } else if buffer_offset + DISPATCH_INDIRECT_ARGS_SIZE > buf.size {
                Err(pass_err(scope, ComputePassErrorInner::IndirectBufferOverrun {
                    offset: buffer_offset,
                    end_offset: buffer_offset.wrapping_add(DISPATCH_INDIRECT_ARGS_SIZE),
                    buffer_size: buf.size,
                }))
            } else {
                Ok((s, dispatch_indirect_actions(g, dev, s, buffer, buffer_offset)))
            }
        },
        ComputeCommand::PushDebugGroup { color: _, len } => Ok(push_debug_group_step(s, len)),
        ComputeCommand::PopDebugGroup => match pop_debug_group_step(s) {
            Ok(r) => Ok(r),
            Err(e) => Err(pass_err(PassErrorScope::PopDebugGroup, ComputePassErrorInner::GeneralPass(e))),
        },
        ComputeCommand::InsertDebugMarker { color: _, len } => Ok(insert_debug_marker_step(s, len)),
        ComputeCommand::WriteTimestamp { query_set, query_index } => match write_timestamp_step(g, dev, s, query_set, query_index) {
            Ok(r) => Ok(r),
            Err(e) => Err(pass_err(PassErrorScope::WriteTimestamp, ComputePassErrorInner::GeneralPass(e))),
        },
        ComputeCommand::BeginPipelineStatisticsQuery { query_set, query_index } =>
            match begin_statistics_step(g, dev, s, query_set, query_index) {
                Ok(r) => Ok(r),
                Err(e) => Err(pass_err(PassErrorScope::BeginPipelineStatisticsQuery, ComputePassErrorInner::GeneralPass(e))),
            },
        ComputeCommand::EndPipelineStatisticsQuery => match end_statistics_step(s) {
            Ok(r) => Ok(r),
            Err(e) => Err(pass_err(PassErrorScope::EndPipelineStatisticsQuery, ComputePassErrorInner::GeneralPass(e))),
        },
    }
}

/// Replaying the commands `cmds` in order from state `s`: the state after
/// them and every command recorded, or the first error.
pub open spec fn compute_run(g: Global, dev: usize, s: ReplayView, cmds: Seq<ComputeCommand>) -> StepResult<ComputePassError>
    decreases cmds.len(),
{
    if cmds.len() == 0 {
        Ok((s, Seq::empty()))
    } else {
        match compute_run(g, dev, s, cmds.drop_last()) {
            Err(e) => Err(e),
            Ok((s1, a1)) => match compute_step(g, dev, s1, cmds.last()) {
                Err(e) => Err(e),
                Ok((s2, a2)) => Ok((s2, a1 + a2)),
            },
        }
    }
}

/// The label bytes that a command uses.
pub open spec fn compute_cmd_label_len(c: ComputeCommand) -> nat {
    match c {
        ComputeCommand::PushDebugGroup { color: _, len } => len as nat,
        ComputeCommand::InsertDebugMarker { color: _, len } => len as nat,
        _ => 0,
    }
}

/// The dynamic offsets that a command uses.
pub open spec fn compute_cmd_offsets_len(c: ComputeCommand) -> nat {
    match c {
        ComputeCommand::SetBindGroup { index: _, num_dynamic_offsets, bind_group: _ } => num_dynamic_offsets as nat,
        _ => 0,
    }
}

/// The label bytes that the debug commands of `cmds` use.
pub open spec fn compute_label_bytes(cmds: Seq<ComputeCommand>) -> nat
    decreases cmds.len(),
{
    if cmds.len() == 0 {
        0
    } else {
        compute_label_bytes(cmds.drop_last()) + compute_cmd_label_len(cmds.last())
    }
}

/// The dynamic offsets that the bind group settings of `cmds` use.
pub open spec fn compute_dynamic_offsets(cmds: Seq<ComputeCommand>) -> nat
    decreases cmds.len(),
{
    if cmds.len() == 0 {
        0
    } else {
        compute_dynamic_offsets(cmds.drop_last()) + compute_cmd_offsets_len(cmds.last())
    }
}

proof fn lemma_compute_sums_prefix(cmds: Seq<ComputeCommand>, i: int)
    requires
        0 <= i < cmds.len(),
    ensures
        compute_label_bytes(cmds.take(i + 1)) == compute_label_bytes(cmds.take(i)) + compute_cmd_label_len(cmds[i]),
        compute_dynamic_offsets(cmds.take(i + 1)) == compute_dynamic_offsets(cmds.take(i)) + compute_cmd_offsets_len(cmds[i]),
{
    assert(cmds.take(i + 1).drop_last() =~= cmds.take(i));
}

proof fn lemma_compute_sums_mono(cmds: Seq<ComputeCommand>, i: int)
    requires
        0 <= i <= cmds.len(),
    ensures
        compute_label_bytes(cmds.take(i)) <= compute_label_bytes(cmds),
        compute_dynamic_offsets(cmds.take(i)) <= compute_dynamic_offsets(cmds),
    decreases cmds.len() - i,
{
    if i == cmds.len() {
        assert(cmds.take(i) =~= cmds);
    } else {
        lemma_compute_sums_prefix(cmds, i);
        lemma_compute_sums_mono(cmds, i + 1);
    }
}

proof fn lemma_compute_run_err_persists(g: Global, dev: usize, s: ReplayView, cmds: Seq<ComputeCommand>, i: int)
    requires
        0 <= i <= cmds.len(),
        compute_run(g, dev, s, cmds.take(i)) is Err,
    ensures
        compute_run(g, dev, s, cmds) == compute_run(g, dev, s, cmds.take(i)),
    decreases cmds.len() - i,
{
    if i == cmds.len() {
        assert(cmds.take(i) =~= cmds);
    } else {
        assert(cmds.take(i + 1).drop_last() =~= cmds.take(i));
        lemma_compute_run_err_persists(g, dev, s, cmds, i + 1);
    }
}

impl ComputePass {
    /// The recorded data covers what the commands use: the labels' bytes, the
    /// dynamic offsets and each upload's push constant words.
    pub open spec fn consistent(self) -> bool {
        self.base is Some ==> {
            let b = self.base->0;
            &&& compute_label_bytes(b.commands@) <= b.string_data@.len()
            &&& compute_dynamic_offsets(b.commands@) <= b.dynamic_offsets@.len()
            &&& forall|i: int| 0 <= i < b.commands@.len() ==> match #[trigger] b.commands@[i] {
                ComputeCommand::SetPushConstant { offset, size_bytes, values_offset } =>
                    values_offset + size_bytes / PUSH_CONSTANT_ALIGNMENT <= b.push_constant_data@.len()
                        && offset + size_bytes <= u32::MAX,
                _ => true,
            }
        }
    }
}

/// The status and commands of encoder `encoder_id` after a pass with the
/// commands `cmds` is begun on it and then ended, both successfully, as
/// `command_encoder_begin_compute_pass` and `compute_pass_end` state it: the
/// status goes through `lock_encoder_spec` and then `unlock_encoder_spec`,
/// and the replay's commands are appended to the encoder's.
pub open spec fn begin_then_end(
    g: Global,
    encoder_id: usize,
    cmds: Seq<ComputeCommand>,
    tw: Option<PassTimestampWrites>,
) -> (EncoderStatus, Seq<RawCommand>) {
    let cb = g.command_buffers@[encoder_id as int];
    let locked = lock_encoder_spec(cb.status).0;
    (unlock_encoder_spec(locked).0, cb.commands@ + compute_pass_replay(g, cb.device, cmds, tw)->Ok_0)
}

impl Global {
    /// Every resource that a recorded compute command refers to is held.
    pub open spec fn compute_refs_held(&self, cmds: Seq<ComputeCommand>) -> bool {
        forall|i: int| 0 <= i < cmds.len() ==> self.compute_command_refs_held(#[trigger] cmds[i])
    }

    /// Every resource that the command refers to is held.
    pub open spec fn compute_command_refs_held(&self, c: ComputeCommand) -> bool {
        match c {
            ComputeCommand::SetBindGroup { index: _, num_dynamic_offsets: _, bind_group } =>
                bind_group is Some ==> self.bind_groups.holds(bind_group->0),
            ComputeCommand::SetPipeline(p) => self.compute_pipelines.holds(p),
            ComputeCommand::DispatchIndirect { buffer, buffer_offset: _ } => self.buffers.holds(buffer),
            ComputeCommand::WriteTimestamp { query_set, query_index: _ } => self.query_sets.holds(query_set),
            ComputeCommand::BeginPipelineStatisticsQuery { query_set, query_index: _ } => self.query_sets.holds(query_set),
            _ => true,
        }
    }
}

/// The compute replay state refers only to held resources.
pub open spec fn compute_state_held(g: Global, s: ReplayView) -> bool {
    &&& crate::replay::bound_groups_held(g, s)
    &&& s.pipeline is Some ==> g.compute_pipelines.holds(s.pipeline->0)
}

/// Returns `compute_push_constant_words(ranges@)`.
fn compute_push_constant_len(ranges: &Vec<PushConstantRange>) -> (r: usize)
    ensures
        r == compute_push_constant_words(ranges@),
{
    let mut i: usize = 0;
    assert(ranges@.subrange(0, ranges@.len() as int) =~= ranges@);
    while i < ranges.len()
        invariant
            i <= ranges@.len(),
            compute_push_constant_words(ranges@) == compute_push_constant_words(ranges@.subrange(i as int, ranges@.len() as int)),
        decreases ranges@.len() - i,
    {
        let r = ranges[i];
        assert(ranges@.subrange(i as int, ranges@.len() as int)[0] == r);
        if r.stages & SHADER_STAGE_COMPUTE == SHADER_STAGE_COMPUTE {
            if r.end >= r.start {
                return ((r.end - r.start) / 4) as usize;
            } else {
                return 0;
            }
        }
        assert(ranges@.subrange(i as int, ranges@.len() as int).drop_first() =~= ranges@.subrange(i as int + 1, ranges@.len() as int));
        i = i + 1;
    }
    0
}

/// Returns `dispatch_readiness(g, s)`.
fn dispatch_ready(g: &Global, s: &ReplayState) -> (r: Result<(), DispatchError>)
    requires
        g.well_formed(),
        compute_state_held(*g, s.view()),
    ensures
        r == dispatch_readiness(*g, s.view()),
{
    match s.pipeline {
        None => Err(DispatchError::MissingPipeline),
        Some(p) => {
            let lid = g.compute_pipelines.resource(p).layout;
            assert(g.compute_pipelines.holds(p));
            assert(g.pipeline_layouts.holds(lid));
            let layout = g.pipeline_layouts.resource(lid);
            assert(layout.bind_group_layouts@.len() <= MAX_BIND_GROUPS);
            match crate::replay::check_compatibility(g, s, &layout.bind_group_layouts, ExclusivePipeline::Compute(p)) {
                Some(i) => {
                    proof {
                        crate::replay::lemma_first_incompatible_bound(
                            *g,
                            s.bound@,
                            layout.bind_group_layouts@,
                            ExclusivePipeline::Compute(p),
                            layout.bind_group_layouts@.len(),
                        );
                    }
                    Err(DispatchError::IncompatibleBindGroup { index: i as u32 })
                },
                None => match crate::replay::check_late_buffer_bindings(g, s, &g.compute_pipelines.resource(p).late_sized_buffer_groups) {
                    Some(m) => Err(DispatchError::BindingSizeTooSmall(m)),
                    None => Ok(()),
                },
            }
        },
    }
}

/// The size of the indirect dispatch arguments,
/// `core::mem::size_of::<wgpu_types::DispatchIndirectArgs>()`: that struct is
/// `repr(C)` with three `u32` fields and no padding, so the size is 12.
#[verifier::external_body]
fn dispatch_indirect_args_size() -> (r: u64)
    ensures
        r == DISPATCH_INDIRECT_ARGS_SIZE,
{
    core::mem::size_of::<wgpu_types::DispatchIndirectArgs>() as u64
}

/// Replays one compute command (see `compute_step`).
fn replay_compute_command(
    g: &Global,
    dev: usize,
    s: &mut ReplayState,
    acts: &mut Vec<RawCommand>,
    cmd: ComputeCommand,
) -> (r: Result<(), ComputePassError>)
    requires
        g.well_formed(),
        dev < g.devices@.len(),
        g.compute_command_refs_held(cmd),
        compute_state_held(*g, old(s).view()),
        old(s).string_offset + compute_cmd_label_len(cmd) <= usize::MAX,
        old(s).dynamic_offset_count + compute_cmd_offsets_len(cmd) <= usize::MAX,
        old(s).debug_depth < usize::MAX,
        cmd matches ComputeCommand::SetPushConstant { offset, size_bytes, values_offset: _ } ==> offset + size_bytes <= u32::MAX,
    ensures
        stepped(compute_step(*g, dev, old(s).view(), cmd), old(s).view(), final(s).view(), old(acts)@, final(acts)@, r),
        r is Ok ==> {
            &&& compute_state_held(*g, final(s).view())
            &&& final(s).string_offset == old(s).string_offset + compute_cmd_label_len(cmd)
            &&& final(s).dynamic_offset_count == old(s).dynamic_offset_count + compute_cmd_offsets_len(cmd)
            &&& final(s).debug_depth <= old(s).debug_depth + 1
        },
{
    let device = &g.devices[dev];
    match cmd {
        ComputeCommand::SetBindGroup { index, num_dynamic_offsets, bind_group } => {
            match crate::replay::set_bind_group(g, dev, s, acts, index, num_dynamic_offsets, bind_group) {
                Ok(()) => Ok(()),
                Err(e) => Err(ComputePassError { scope: PassErrorScope::SetBindGroup, inner: ComputePassErrorInner::GeneralPass(e) }),
            }
        },
        ComputeCommand::SetPipeline(p) => {
            let pl = g.compute_pipelines.resource(p);
            if pl.device != dev {
                return Err(ComputePassError {
                    scope: PassErrorScope::SetPipelineCompute,
                    inner: ComputePassErrorInner::GeneralPass(PassError::Device(DeviceError::DeviceMismatch { kind: ResourceKind::ComputePipeline, id: p })),
                });
            }
            let same_layout = match s.layout {
                Some(l) => l == pl.layout,
                None => false,
            };
            acts.push(RawCommand::SetComputePipeline { pipeline: p });
            if same_layout {
                s.pipeline = Some(p);
                assert(acts@ =~= old(acts)@ + seq![RawCommand::SetComputePipeline { pipeline: p }]);
            } else {
                let layout = g.pipeline_layouts.resource(pl.layout);
                let ghost mid = acts@;
                crate::replay::rebind(s, acts, layout.bind_group_layouts.len());
                s.pipeline = Some(p);
                s.layout = Some(pl.layout);
                s.push_constants_len = compute_push_constant_len(&layout.push_constant_ranges);
                assert(acts@ =~= old(acts)@ + (seq![RawCommand::SetComputePipeline { pipeline: p }] + rebind_actions(
                    old(s).bound@,
                    layout.bind_group_layouts@.len(),
                )));
            }
            Ok(())
        },
        ComputeCommand::SetPushConstant { offset, size_bytes, values_offset } => {
            let scope = PassErrorScope::SetPushConstant;
            match s.layout {
                None => Err(ComputePassError { scope, inner: ComputePassErrorInner::GeneralPass(PassError::MissingPipeline) }),
                Some(l) => {
                    let layout = g.pipeline_layouts.resource(l);
                    match crate::replay::validate_push_constant_ranges(
                        &layout.push_constant_ranges,
                        SHADER_STAGE_COMPUTE,
                        offset,
                        offset + size_bytes,
                    ) {
                        Err(e) => Err(ComputePassError { scope, inner: ComputePassErrorInner::GeneralPass(PassError::PushConstants(e)) }),
                        Ok(()) => {
                            let a = RawCommand::SetPushConstants {
                                stages: SHADER_STAGE_COMPUTE,
                                byte_offset: offset,
                                values_start: values_offset as usize,
                                values_len: (size_bytes / PUSH_CONSTANT_ALIGNMENT) as usize,
                            };
                            acts.push(a);
                            assert(acts@ =~= old(acts)@ + seq![a]);
                            Ok(())
                        },
                    }
                },
            }
        },
        ComputeCommand::Dispatch(groups) => {
            let scope = PassErrorScope::Dispatch { indirect: false };
            if let Err(e) = dispatch_ready(g, s) {
                return Err(ComputePassError { scope, inner: ComputePassErrorInner::Dispatch(e) });
            }
            let limit = device.limits.max_compute_workgroups_per_dimension;
            if groups[0] > limit || groups[1] > limit || groups[2] > limit {
                return Err(ComputePassError {
                    scope,
                    inner: ComputePassErrorInner::Dispatch(DispatchError::InvalidGroupSize { current: groups, limit }),
                });
            }
            acts.push(RawCommand::Dispatch { groups });
            assert(acts@ =~= old(acts)@ + seq![RawCommand::Dispatch { groups }]);
            Ok(())
        },
        ComputeCommand::DispatchIndirect { buffer, buffer_offset } => {
            let scope = PassErrorScope::Dispatch { indirect: true };
            let buf = g.buffers.resource(buffer);
            if buf.device != dev {
                return Err(ComputePassError {
                    scope,
                    inner: ComputePassErrorInner::GeneralPass(PassError::Device(DeviceError::DeviceMismatch { kind: ResourceKind::Buffer, id: buffer })),
                });
            }
            if let Err(e) = dispatch_ready(g, s) {
                return Err(ComputePassError { scope, inner: ComputePassErrorInner::Dispatch(e) });
            }
            if !device.indirect_execution {
                return Err(ComputePassError { scope, inner: ComputePassErrorInner::MissingDownlevelFlags });
            }
            if buf.usage & BUFFER_USAGE_INDIRECT != BUFFER_USAGE_INDIRECT {
                return Err(ComputePassError {
                    scope,
                    inner: ComputePassErrorInner::MissingBufferUsage { buffer, actual: buf.usage, expected: BUFFER_USAGE_INDIRECT },
                });
            }
            if buf.destroyed {
                return Err(ComputePassError {
                    scope,
                    inner: ComputePassErrorInner::GeneralPass(PassError::DestroyedResource { kind: ResourceKind::Buffer, id: buffer }),
                });
            }
            if buffer_offset % 4 != 0 {
                return Err(ComputePassError { scope, inner: ComputePassErrorInner::UnalignedIndirectBufferOffset(buffer_offset) });
            }
            let args_size = dispatch_indirect_args_size();
            if buffer_offset > buf.size || buf.size - buffer_offset < args_size {
                return Err(ComputePassError {
                    scope,
                    inner: ComputePassErrorInner::IndirectBufferOverrun {
                        offset: buffer_offset,
                        end_offset: buffer_offset.wrapping_add(args_size),
                        buffer_size: buf.size,
                    },
                });
            }
            acts.push(RawCommand::RequireInitializedMemory { buffer, start: buffer_offset, end: buffer_offset + args_size });
            if device.indirect_validation {
                let p = s.pipeline.unwrap();
                let n = g.pipeline_layouts.resource(g.compute_pipelines.resource(p).layout).bind_group_layouts.len();
                acts.push(RawCommand::ValidateIndirectDispatch { buffer, offset: buffer_offset });
                acts.push(RawCommand::UseBuffer { buffer, usage: BUFFER_USES_STORAGE_READ_ONLY });
                acts.push(RawCommand::SetComputePipeline { pipeline: p });
                if s.push_constants_len > 0 {
                    acts.push(RawCommand::RestorePushConstants { len: s.push_constants_len });
                }
                let ghost mid = acts@;
                crate::replay::rebind(s, acts, n);
                acts.push(RawCommand::DispatchValidatedIndirect);
                assert(acts@ =~= old(acts)@ + dispatch_indirect_actions(*g, dev, s.view(), buffer, buffer_offset));
            } else {
                acts.push(RawCommand::UseBuffer { buffer, usage: BUFFER_USES_INDIRECT });
                acts.push(RawCommand::DispatchIndirect { buffer, offset: buffer_offset });
                assert(acts@ =~= old(acts)@ + dispatch_indirect_actions(*g, dev, s.view(), buffer, buffer_offset));
            }
            Ok(())
        },
        ComputeCommand::PushDebugGroup { color: _, len } => {
            crate::replay::push_debug_group(s, acts, len);
            Ok(())
        },
        ComputeCommand::PopDebugGroup => match crate::replay::pop_debug_group(s, acts) {
            Ok(()) => Ok(()),
            Err(e) => Err(ComputePassError { scope: PassErrorScope::PopDebugGroup, inner: ComputePassErrorInner::GeneralPass(e) }),
        },
        ComputeCommand::InsertDebugMarker { color: _, len } => {
            crate::replay::insert_debug_marker(s, acts, len);
            Ok(())
        },
        ComputeCommand::WriteTimestamp { query_set, query_index } => match crate::replay::write_timestamp(
            g,
            dev,
            s,
            acts,
            query_set,
            query_index,
        ) {
            Ok(()) => Ok(()),
            Err(e) => Err(ComputePassError { scope: PassErrorScope::WriteTimestamp, inner: ComputePassErrorInner::GeneralPass(e) }),
        },
        ComputeCommand::BeginPipelineStatisticsQuery { query_set, query_index } =>
            match crate::replay::begin_pipeline_statistics_query(g, dev, s, acts, query_set, query_index) {
                Ok(()) => Ok(()),
                Err(e) => Err(ComputePassError {
                    scope: PassErrorScope::BeginPipelineStatisticsQuery,
                    inner: ComputePassErrorInner::GeneralPass(e),
                }),
            },
        ComputeCommand::EndPipelineStatisticsQuery => match crate::replay::end_pipeline_statistics_query(s, acts) {
            Ok(()) => Ok(()),
            Err(e) => Err(ComputePassError {
                scope: PassErrorScope::EndPipelineStatisticsQuery,
                inner: ComputePassErrorInner::GeneralPass(e),
            }),
        },
    }
}


/// Every push constant upload's byte range ends within `u32`.
pub open spec fn compute_push_constants_fit(cmds: Seq<ComputeCommand>) -> bool {
    forall|i: int| 0 <= i < cmds.len() ==> (#[trigger] cmds[i] matches ComputeCommand::SetPushConstant {
        offset,
        size_bytes,
        values_offset: _,
    } ==> offset + size_bytes <= u32::MAX)
}

/// The commands that replaying a compute pass records: the timestamp query
/// resets, the beginning of the pass, the replayed commands and the end of
/// the pass; or the error that stops the replay.
pub open spec fn compute_pass_replay(
    g: Global,
    dev: usize,
    cmds: Seq<ComputeCommand>,
    tw: Option<PassTimestampWrites>,
) -> Result<Seq<RawCommand>, ComputePassError> {
    match crate::replay::timestamp_reset_actions(g, dev, tw) {
        Err(e) => Err(pass_err(PassErrorScope::Pass, ComputePassErrorInner::GeneralPass(e))),
        Ok(pre) => match compute_run(g, dev, initial_view(), cmds) {
            Err(e) => Err(e),
            Ok((_, acts)) => Ok(pre + seq![RawCommand::BeginComputePass { timestamp_writes: tw }] + acts + seq![
                RawCommand::EndComputePass,
            ]),
        },
    }
}

proof fn lemma_compute_run_dispatch_limits(g: Global, dev: usize, s: ReplayView, cmds: Seq<ComputeCommand>)
    requires
        compute_run(g, dev, s, cmds) is Ok,
    ensures
        forall|i: int|
            0 <= i < cmds.len() && (#[trigger] cmds[i]) is Dispatch ==> {
                let groups = cmds[i]->Dispatch_0;
                let limit = g.devices@[dev as int].limits.max_compute_workgroups_per_dimension;
                groups[0] <= limit && groups[1] <= limit && groups[2] <= limit
            },
        forall|i: int|
            0 <= i < cmds.len() && (#[trigger] cmds[i]) is DispatchIndirect ==> {
                let buf = g.buffers.data(cmds[i]->DispatchIndirect_buffer);
                let offset = cmds[i]->DispatchIndirect_buffer_offset;
                &&& g.devices@[dev as int].indirect_execution
                &&& contains_bits(buf.usage, BUFFER_USAGE_INDIRECT)
                &&& !buf.destroyed
                &&& offset % 4 == 0
                &&& offset + 12 <= buf.size
            },
    decreases cmds.len(),
{
    if cmds.len() > 0 {
        let p = cmds.drop_last();
        lemma_compute_run_dispatch_limits(g, dev, s, p);
        assert forall|i: int| 0 <= i < p.len() implies p[i] == cmds[i] by {}
        assert(cmds.last() == cmds[cmds.len() - 1]);
    }
}

/// A compute pass whose replay succeeds dispatches no more workgroups than
/// the device allows in any dimension: in every direct dispatch of the pass,
/// the x, y and z workgroup counts are each at most
/// `max_compute_workgroups_per_dimension`.  So a pass holding a dispatch over
/// that limit in any dimension fails to replay.
pub proof fn lemma_replayed_dispatches_within_limit(
    g: Global,
    dev: usize,
    cmds: Seq<ComputeCommand>,
    tw: Option<PassTimestampWrites>,
    i: int,
)
    requires
        compute_pass_replay(g, dev, cmds, tw) is Ok,
        0 <= i < cmds.len(),
        cmds[i] is Dispatch,
    ensures
        ({
            let groups = cmds[i]->Dispatch_0;
            let limit = g.devices@[dev as int].limits.max_compute_workgroups_per_dimension;
            groups[0] <= limit && groups[1] <= limit && groups[2] <= limit
        }),
{
    lemma_compute_run_dispatch_limits(g, dev, initial_view(), cmds);
}

/// A compute pass whose replay succeeds reads the arguments of each
/// indirect dispatch from inside a live buffer made for indirect use, on a
/// device that can execute indirect commands: the offset is a multiple of
/// four and the twelve bytes of the three workgroup counts from it lie inside
/// the buffer.
pub proof fn lemma_replayed_indirect_dispatches_in_bounds(
    g: Global,
    dev: usize,
    cmds: Seq<ComputeCommand>,
    tw: Option<PassTimestampWrites>,
    i: int,
)
    requires
        compute_pass_replay(g, dev, cmds, tw) is Ok,
        0 <= i < cmds.len(),
        cmds[i] is DispatchIndirect,
    ensures
        ({
            let buf = g.buffers.data(cmds[i]->DispatchIndirect_buffer);
            let offset = cmds[i]->DispatchIndirect_buffer_offset;
            &&& g.devices@[dev as int].indirect_execution
            &&& contains_bits(buf.usage, BUFFER_USAGE_INDIRECT)
            &&& !buf.destroyed
            &&& offset % 4 == 0
            &&& offset + 12 <= buf.size
        }),
{
    lemma_compute_run_dispatch_limits(g, dev, initial_view(), cmds);
}

/// The command `c` is no dispatch, or a dispatch of at most `limit`
/// workgroups in each dimension.
pub open spec fn dispatch_within(c: RawCommand, limit: u32) -> bool {
    match c {
        RawCommand::Dispatch { groups } => groups[0] <= limit && groups[1] <= limit && groups[2] <= limit,
        _ => true,
    }
}

/// Every dispatch among `acts` is of at most `limit` workgroups in each
/// dimension.
pub open spec fn dispatches_within(acts: Seq<RawCommand>, limit: u32) -> bool {
    forall|i: int| 0 <= i < acts.len() ==> #[trigger] dispatch_within(acts[i], limit)
}

proof fn lemma_dispatches_within_concat(a: Seq<RawCommand>, b: Seq<RawCommand>, limit: u32)
    requires
        dispatches_within(a, limit),
        dispatches_within(b, limit),
    ensures
        dispatches_within(a + b, limit),
{
    assert forall|i: int| 0 <= i < (a + b).len() implies #[trigger] dispatch_within((a + b)[i], limit) by {
        if i < a.len() {
            assert((a + b)[i] == a[i]);
        } else {
            assert((a + b)[i] == b[i - a.len()]);
        }
    }
}

proof fn lemma_rebind_has_no_dispatch(bound: Seq<Option<crate::replay::BoundGroup>>, n: nat, limit: u32)
    ensures
        dispatches_within(rebind_actions(bound, n), limit),
    decreases n,
{
    if n > 0 && n <= bound.len() {
        lemma_rebind_has_no_dispatch(bound, (n - 1) as nat, limit);
        let tail = match bound[n - 1] {
            Some(b) => seq![RawCommand::SetBindGroup {
                index: (n - 1) as u32,
                bind_group: b.group,
                offsets_start: b.offsets_start,
                offsets_len: b.offsets_len,
            }],
            None => Seq::empty(),
        };
        assert forall|i: int| 0 <= i < tail.len() implies #[trigger] dispatch_within(tail[i], limit) by {}
        lemma_dispatches_within_concat(rebind_actions(bound, (n - 1) as nat), tail, limit);
    }
}

proof fn lemma_compute_step_dispatches_within(g: Global, dev: usize, s: ReplayView, cmd: ComputeCommand)
    requires
        compute_step(g, dev, s, cmd) is Ok,
    ensures
        dispatches_within(
            compute_step(g, dev, s, cmd)->Ok_0.1,
            g.devices@[dev as int].limits.max_compute_workgroups_per_dimension,
        ),
{
    let limit = g.devices@[dev as int].limits.max_compute_workgroups_per_dimension;
    let acts = compute_step(g, dev, s, cmd)->Ok_0.1;
    match cmd {
        ComputeCommand::SetPipeline(p) => {
            let pl = g.compute_pipelines.data(p);
            if s.layout != Some(pl.layout) {
                let first = seq![RawCommand::SetComputePipeline { pipeline: p }];
                assert forall|i: int| 0 <= i < first.len() implies #[trigger] dispatch_within(first[i], limit) by {}
                let n = g.pipeline_layouts.data(pl.layout).bind_group_layouts@.len();
                lemma_rebind_has_no_dispatch(s.bound, n, limit);
                lemma_dispatches_within_concat(first, rebind_actions(s.bound, n), limit);
            }
        },
        ComputeCommand::DispatchIndirect { buffer, buffer_offset } => {
            let head = seq![RawCommand::RequireInitializedMemory {
                buffer,
                start: buffer_offset,
                end: (buffer_offset + DISPATCH_INDIRECT_ARGS_SIZE) as u64,
            }];
            assert forall|i: int| 0 <= i < head.len() implies #[trigger] dispatch_within(head[i], limit) by {}
            let body = dispatch_indirect_body(g, dev, s, buffer, buffer_offset);
            if g.devices@[dev as int].indirect_validation {
                let p = s.pipeline->0;
                let n = g.pipeline_layouts.data(g.compute_pipelines.data(p).layout).bind_group_layouts@.len();
                let a = seq![
                    RawCommand::ValidateIndirectDispatch { buffer, offset: buffer_offset },
                    RawCommand::UseBuffer { buffer, usage: BUFFER_USES_STORAGE_READ_ONLY },
                    RawCommand::SetComputePipeline { pipeline: p },
                ];
                let b: Seq<RawCommand> = if s.push_constants_len > 0 {
                    seq![RawCommand::RestorePushConstants { len: s.push_constants_len as usize }]
                } else {
                    Seq::empty()
                };
                let d = seq![RawCommand::DispatchValidatedIndirect];
                assert forall|i: int| 0 <= i < a.len() implies #[trigger] dispatch_within(a[i], limit) by {}
                assert forall|i: int| 0 <= i < b.len() implies #[trigger] dispatch_within(b[i], limit) by {}
                assert forall|i: int| 0 <= i < d.len() implies #[trigger] dispatch_within(d[i], limit) by {}
                lemma_rebind_has_no_dispatch(s.bound, n, limit);
                lemma_dispatches_within_concat(a, b, limit);
                lemma_dispatches_within_concat(a + b, rebind_actions(s.bound, n), limit);
                lemma_dispatches_within_concat(a + b + rebind_actions(s.bound, n), d, limit);
            } else {
                assert forall|i: int| 0 <= i < body.len() implies #[trigger] dispatch_within(body[i], limit) by {}
            }
            lemma_dispatches_within_concat(head, body, limit);
        },
        _ => {
            assert forall|i: int| 0 <= i < acts.len() implies #[trigger] dispatch_within(acts[i], limit) by {}
        },
    }
}

proof fn lemma_compute_run_dispatches_within(g: Global, dev: usize, s: ReplayView, cmds: Seq<ComputeCommand>)
    requires
        compute_run(g, dev, s, cmds) is Ok,
    ensures
        dispatches_within(
            compute_run(g, dev, s, cmds)->Ok_0.1,
            g.devices@[dev as int].limits.max_compute_workgroups_per_dimension,
        ),
    decreases cmds.len(),
{
    let limit = g.devices@[dev as int].limits.max_compute_workgroups_per_dimension;
    if cmds.len() == 0 {
        let e = Seq::<RawCommand>::empty();
        assert forall|i: int| 0 <= i < e.len() implies #[trigger] dispatch_within(e[i], limit) by {}
    } else {
        lemma_compute_run_dispatches_within(g, dev, s, cmds.drop_last());
        let (s1, a1) = compute_run(g, dev, s, cmds.drop_last())->Ok_0;
        lemma_compute_step_dispatches_within(g, dev, s1, cmds.last());
        lemma_dispatches_within_concat(a1, compute_step(g, dev, s1, cmds.last())->Ok_0.1, limit);
    }
}

/// A compute pass whose replay succeeds records no dispatch of more
/// workgroups than the device allows: every `Dispatch` command that it
/// records has x, y and z workgroup counts of at most
/// `max_compute_workgroups_per_dimension`.
pub proof fn lemma_recorded_dispatches_within_limit(
    g: Global,
    dev: usize,
    cmds: Seq<ComputeCommand>,
    tw: Option<PassTimestampWrites>,
)
    requires
        compute_pass_replay(g, dev, cmds, tw) is Ok,
    ensures
        ({
            let acts = compute_pass_replay(g, dev, cmds, tw)->Ok_0;
            let limit = g.devices@[dev as int].limits.max_compute_workgroups_per_dimension;
            forall|i: int| 0 <= i < acts.len() ==> match #[trigger] acts[i] {
                RawCommand::Dispatch { groups } => groups[0] <= limit && groups[1] <= limit && groups[2] <= limit,
                _ => true,
            }
        }),
{
    let limit = g.devices@[dev as int].limits.max_compute_workgroups_per_dimension;
    let pre = crate::replay::timestamp_reset_actions(g, dev, tw)->Ok_0;
    let body = compute_run(g, dev, initial_view(), cmds)->Ok_0.1;
    lemma_compute_run_dispatches_within(g, dev, initial_view(), cmds);
    let b = seq![RawCommand::BeginComputePass { timestamp_writes: tw }];
    let e = seq![RawCommand::EndComputePass];
    assert forall|i: int| 0 <= i < pre.len() implies #[trigger] dispatch_within(pre[i], limit) by {}
    assert forall|i: int| 0 <= i < b.len() implies #[trigger] dispatch_within(b[i], limit) by {}
    assert forall|i: int| 0 <= i < e.len() implies #[trigger] dispatch_within(e[i], limit) by {}
    lemma_dispatches_within_concat(pre, b, limit);
    lemma_dispatches_within_concat(pre + b, body, limit);
    lemma_dispatches_within_concat(pre + b + body, e, limit);
    let acts = compute_pass_replay(g, dev, cmds, tw)->Ok_0;
    assert(acts == pre + b + body + e);
    assert forall|i: int| 0 <= i < acts.len() implies match #[trigger] acts[i] {
        RawCommand::Dispatch { groups } => groups[0] <= limit && groups[1] <= limit && groups[2] <= limit,
        _ => true,
    } by {
        assert(dispatch_within(acts[i], limit));
    }
}

/// Once a compute pipeline is ready to dispatch, a direct dispatch is
/// decided by its workgroup counts alone: when each of x, y and z is at most
/// `max_compute_workgroups_per_dimension` it records one dispatch of exactly
/// those counts and changes no state; when any of them is over, it fails with
/// `InvalidGroupSize`, naming the counts and the limit.
pub proof fn lemma_dispatch_decided_by_limit(g: Global, dev: usize, s: ReplayView, groups: [u32; 3])
    requires
        dispatch_readiness(g, s) is Ok,
    ensures
        ({
            let limit = g.devices@[dev as int].limits.max_compute_workgroups_per_dimension;
            if groups[0] <= limit && groups[1] <= limit && groups[2] <= limit {
                compute_step(g, dev, s, ComputeCommand::Dispatch(groups)) == Ok::<_, ComputePassError>(
                    (s, seq![RawCommand::Dispatch { groups }]),
                )
            } else {
                compute_step(g, dev, s, ComputeCommand::Dispatch(groups)) == Err::<(ReplayView, Seq<RawCommand>), _>(
                    ComputePassError {
                        scope: PassErrorScope::Dispatch { indirect: false },
                        inner: ComputePassErrorInner::Dispatch(DispatchError::InvalidGroupSize { current: groups, limit }),
                    },
                )
            }
        }),
{
}

impl Global {
    /// Ends a compute pass: replays its recorded commands into its encoder,
    /// validating each, and unlocks the encoder.
    ///
    /// A pass without a parent, or one that has already ended, fails and is
    /// left as it is.  Otherwise the pass ends (its data is taken) whatever
    /// follows.  On an invalid device the encoder stays locked.  If the encoder
    /// cannot be unlocked it fails as `unlock_encoder_spec` says.  Once it is
    /// unlocked, any error invalidates the encoder and nothing is recorded; on
    /// success the encoder records again and holds `compute_pass_replay`'s
    /// commands.
    pub fn compute_pass_end(&mut self, pass: &mut ComputePass) -> (r: Result<(), ComputePassError>)
        requires
            old(self).well_formed(),
            old(pass).parent is Some ==> old(pass).parent->0 < old(self).command_buffers@.len(),
            old(pass).parent is Some && old(pass).base is Some ==> {
                &&& old(pass).consistent()
                &&& old(self).compute_refs_held(old(pass).base->0.commands@)
                &&& old(pass).timestamp_writes is Some ==> old(self).query_sets.holds(old(pass).timestamp_writes->0.query_set)
                &&& crate::replay::timestamp_indices_fit(old(pass).timestamp_writes)
            },
        ensures
            final(self).well_formed(),
            old(pass).parent is None ==> r == Err::<(), _>(pass_err(PassErrorScope::Pass, ComputePassErrorInner::InvalidParentEncoder))
                && *final(pass) == *old(pass) && *final(self) == *old(self),
            old(pass).parent is Some && old(pass).base is None ==> r == Err::<(), _>(pass_err(
                PassErrorScope::Pass,
                ComputePassErrorInner::PassEnded,
            )) && *final(pass) == *old(pass) && *final(self) == *old(self),
            old(pass).parent is Some && old(pass).base is Some ==> {
                let p = old(pass).parent->0;
                let cb = old(self).command_buffers@[p as int];
                let dev = cb.device;
                let (unlocked, unlock) = unlock_encoder_spec(cb.status);
                let new_cb = final(self).command_buffers@[p as int];
                &&& final(pass).base is None
                &&& final(pass).parent == old(pass).parent
                &&& final(pass).current_pipeline == old(pass).current_pipeline
                &&& final(pass).current_bind_groups == old(pass).current_bind_groups
                &&& final(self).same_resources(*old(self))
                &&& final(self).command_buffers@.len() == old(self).command_buffers@.len()
                &&& forall|i: int| 0 <= i < old(self).command_buffers@.len() && i != p ==> final(self).command_buffers@[i]
                    == old(self).command_buffers@[i]
                &&& new_cb.device == cb.device
                &&& new_cb.as_actions == cb.as_actions
                &&& if !old(self).devices@[dev as int].valid {
                    &&& r == Err::<(), _>(pass_err(
                        PassErrorScope::Pass,
                        ComputePassErrorInner::GeneralPass(PassError::Device(DeviceError::Invalid)),
                    ))
                    &&& final(pass).timestamp_writes == old(pass).timestamp_writes
                    &&& new_cb.status == cb.status
                    &&& new_cb.commands@ == cb.commands@
                } else if unlock is Err {
                    &&& r == Err::<(), _>(pass_err(PassErrorScope::Pass, ComputePassErrorInner::EncoderState(unlock->Err_0)))
                    &&& final(pass).timestamp_writes == old(pass).timestamp_writes
                    &&& new_cb.status == unlocked
                    &&& new_cb.commands@ == cb.commands@
                } else {
                    &&& final(pass).timestamp_writes is None
                    &&& match compute_pass_replay(*old(self), dev, old(pass).base->0.commands@, old(pass).timestamp_writes) {
                        Err(e) => r == Err::<(), _>(e) && new_cb.status == EncoderStatus::Error(CommandEncoderError::ComputePass(e))
                            && new_cb.commands@ == cb.commands@,
                        Ok(a) => r is Ok && new_cb.status == EncoderStatus::Recording && new_cb.commands@ == cb.commands@ + a,
                    }
                }
            },
    {
        let p = match pass.parent {
            Some(p) => p,
            None => return Err(ComputePassError { scope: PassErrorScope::Pass, inner: ComputePassErrorInner::InvalidParentEncoder }),
        };
        if pass.base.is_none() {
            return Err(ComputePassError { scope: PassErrorScope::Pass, inner: ComputePassErrorInner::PassEnded });
        }
        let base = pass.base.take().unwrap();
        let dev = self.command_buffers[p].device;
        if !self.devices[dev].valid {
            return Err(ComputePassError {
                scope: PassErrorScope::Pass,
                inner: ComputePassErrorInner::GeneralPass(PassError::Device(DeviceError::Invalid)),
            });
        }
        let (unlocked, unlock) = unlock_encoder(self.command_buffers[p].status);
        if let Err(e) = unlock {
            self.set_encoder_status(p, unlocked);
            return Err(ComputePassError { scope: PassErrorScope::Pass, inner: ComputePassErrorInner::EncoderState(e) });
        }
        let tw = pass.timestamp_writes.take();
        let mut acts: Vec<RawCommand> = Vec::new();
        if let Err(e) = crate::replay::reset_timestamp_queries(self, dev, tw, &mut acts) {
            let err = ComputePassError { scope: PassErrorScope::Pass, inner: ComputePassErrorInner::GeneralPass(e) };
            self.set_encoder_status(p, EncoderStatus::Error(CommandEncoderError::ComputePass(err)));
            return Err(err);
        }
        let ghost resets = acts@;
        acts.push(RawCommand::BeginComputePass { timestamp_writes: tw });
        let ghost pre = acts@;
        assert(pre.drop_last() =~= resets);
        let cmds = &base.commands;
        let string_len = base.string_data.len();
        let offsets_len = base.dynamic_offsets.len();
        let mut state = ReplayState::new();
        let mut body: Vec<RawCommand> = Vec::new();
        let mut i: usize = 0;
        proof {
            assert(cmds@.take(0) =~= Seq::<ComputeCommand>::empty());
            lemma_compute_sums_mono(cmds@, cmds@.len() as int);
        }
        while i < cmds.len()
            invariant
                i <= cmds@.len(),
                *self == *old(self),
                self.well_formed(),
                old(pass).parent == Some(p),
                old(pass).base == Some(base),
                cmds@ == old(pass).base->0.commands@,
                pass.base is None,
                pass.parent == old(pass).parent,
                pass.timestamp_writes is None,
                pass.current_pipeline == old(pass).current_pipeline,
                pass.current_bind_groups == old(pass).current_bind_groups,
                tw == old(pass).timestamp_writes,
                dev == old(self).command_buffers@[p as int].device,
                old(self).devices@[dev as int].valid,
                unlock_encoder_spec(old(self).command_buffers@[p as int].status) == (unlocked, Ok::<(), EncoderStateError>(())),
                crate::replay::timestamp_reset_actions(*self, dev, tw) == Ok::<_, PassError>(pre.drop_last()),
                pre.last() == (RawCommand::BeginComputePass { timestamp_writes: tw }),
                acts@ == pre,
                pre.len() > 0,
                p < self.command_buffers@.len(),
                dev < self.devices@.len(),
                self.compute_refs_held(cmds@),
                compute_push_constants_fit(cmds@),
                string_len == base.string_data@.len(),
                offsets_len == base.dynamic_offsets@.len(),
                compute_label_bytes(cmds@) <= string_len,
                compute_dynamic_offsets(cmds@) <= offsets_len,
                compute_run(*self, dev, initial_view(), cmds@.take(i as int)) == Ok::<_, ComputePassError>((state.view(), body@)),
                compute_state_held(*self, state.view()),
                state.string_offset == compute_label_bytes(cmds@.take(i as int)),
                state.dynamic_offset_count == compute_dynamic_offsets(cmds@.take(i as int)),
                state.debug_depth <= i,
            decreases cmds@.len() - i,
        {
            let cmd = cmds[i];
            proof {
                lemma_compute_sums_prefix(cmds@, i as int);
                lemma_compute_sums_mono(cmds@, i as int + 1);
                assert(self.compute_command_refs_held(cmds@[i as int]));
                assert(cmds@.take(i as int + 1).drop_last() =~= cmds@.take(i as int));
            }
            let ghost sv = state.view();
            let r = replay_compute_command(self, dev, &mut state, &mut body, cmd);
            if let Err(e) = r {
                assert(compute_step(*self, dev, sv, cmd) == Err::<(ReplayView, Seq<RawCommand>), ComputePassError>(e));
                assert(compute_run(*self, dev, initial_view(), cmds@.take(i as int + 1)) == Err::<(ReplayView, Seq<RawCommand>), ComputePassError>(e));
                proof { lemma_compute_run_err_persists(*self, dev, initial_view(), cmds@, i as int + 1); }
                assert(compute_run(*old(self), dev, initial_view(), old(pass).base->0.commands@) == Err::<(ReplayView, Seq<RawCommand>), ComputePassError>(e));
                assert(compute_pass_replay(*old(self), dev, old(pass).base->0.commands@, old(pass).timestamp_writes) == Err::<Seq<RawCommand>, ComputePassError>(e));
                self.set_encoder_status(p, EncoderStatus::Error(CommandEncoderError::ComputePass(e)));
                return Err(e);
            }
            i = i + 1;
        }
        proof {
            assert(cmds@.take(cmds@.len() as int) =~= cmds@);
        }
        let ghost body_acts = body@;
        acts.append(&mut body);
        acts.push(RawCommand::EndComputePass);
        assert(acts@ =~= pre.drop_last() + seq![RawCommand::BeginComputePass { timestamp_writes: tw }] + body_acts + seq![
            RawCommand::EndComputePass,
        ]);
        self.append_commands(p, &mut acts, EncoderStatus::Recording);
        Ok(())
    }
}


/// A compute replay step reads only the devices and resources of the hub.
proof fn lemma_compute_step_same_resources(a: Global, b: Global, dev: usize, s: ReplayView, c: ComputeCommand)
    requires
        a.same_resources(b),
    ensures
        compute_step(a, dev, s, c) == compute_step(b, dev, s, c),
{
    match s.pipeline {
        Some(p) => {
            let layouts = a.pipeline_layouts.data(a.compute_pipelines.data(p).layout).bind_group_layouts@;
            crate::replay::lemma_first_incompatible_same(a, b, s.bound, layouts, ExclusivePipeline::Compute(p), layouts.len());
            crate::replay::lemma_late_mismatch_same(
                a,
                b,
                s.bound,
                a.compute_pipelines.data(p).late_sized_buffer_groups@.map_values(|v: Vec<u64>| v@),
            );
        },
        None => {},
    }
}

/// A compute replay reads only the devices and resources of the hub.
proof fn lemma_compute_run_same_resources(a: Global, b: Global, dev: usize, s: ReplayView, cmds: Seq<ComputeCommand>)
    requires
        a.same_resources(b),
    ensures
        compute_run(a, dev, s, cmds) == compute_run(b, dev, s, cmds),
    decreases cmds.len(),
{
    if cmds.len() > 0 {
        lemma_compute_run_same_resources(a, b, dev, s, cmds.drop_last());
        match compute_run(a, dev, s, cmds.drop_last()) {
            Ok((s1, _)) => lemma_compute_step_same_resources(a, b, dev, s1, cmds.last()),
            Err(_) => {},
        }
    }
}

/// Replaying a compute pass reads only the devices and resources of the hub.
pub proof fn lemma_compute_pass_replay_same_resources(
    a: Global,
    b: Global,
    dev: usize,
    cmds: Seq<ComputeCommand>,
    tw: Option<PassTimestampWrites>,
)
    requires
        a.same_resources(b),
    ensures
        compute_pass_replay(a, dev, cmds, tw) == compute_pass_replay(b, dev, cmds, tw),
{
    lemma_compute_run_same_resources(a, b, dev, initial_view(), cmds);
}

impl Global {
    /// What recording keeps of a pass: its data covers its commands, and its
    /// commands refer only to held resources.
    pub open spec fn compute_pass_invariant(&self, pass: ComputePass) -> bool {
        &&& pass.consistent()
        &&& pass.base is Some ==> self.compute_refs_held(pass.base->0.commands@)
    }
}

/// Recording a command whose resources are held, with data that covers what
/// it uses, keeps the pass invariant.
pub proof fn lemma_record_keeps_invariant(
    g: Global,
    old_pass: ComputePass,
    new_pass: ComputePass,
    cmd: ComputeCommand,
    strings: Seq<u8>,
    words: Seq<u32>,
)
    requires
        g.compute_pass_invariant(old_pass),
        old_pass.records(new_pass, cmd, strings, words),
        g.compute_command_refs_held(cmd),
        compute_cmd_label_len(cmd) <= strings.len(),
        compute_cmd_offsets_len(cmd) == 0,
        cmd matches ComputeCommand::SetPushConstant { offset, size_bytes, values_offset } ==> values_offset + size_bytes
            / PUSH_CONSTANT_ALIGNMENT <= old_pass.base->0.push_constant_data@.len() + words.len() && offset + size_bytes
            <= u32::MAX,
    ensures
        g.compute_pass_invariant(new_pass),
{
    let oc = old_pass.base->0.commands@;
    let nc = new_pass.base->0.commands@;
    assert(nc.drop_last() =~= oc);
    assert forall|i: int| 0 <= i < nc.len() implies g.compute_command_refs_held(#[trigger] nc[i]) by {
        if i < oc.len() {
            assert(nc[i] == oc[i]);
        }
    }
    assert forall|i: int| 0 <= i < nc.len() implies match #[trigger] nc[i] {
        ComputeCommand::SetPushConstant { offset, size_bytes, values_offset } =>
            values_offset + size_bytes / PUSH_CONSTANT_ALIGNMENT <= new_pass.base->0.push_constant_data@.len()
                && offset + size_bytes <= u32::MAX,
        _ => true,
    } by {
        if i < oc.len() {
            assert(nc[i] == oc[i]);
        }
    }
}

/// Setting a bind group keeps the pass invariant: the offsets it stores
/// cover the offsets its command uses.
pub proof fn lemma_set_bind_group_keeps_invariant(
    g: Global,
    old_pass: ComputePass,
    new_pass: ComputePass,
    offsets: Seq<u32>,
    cmd: Option<ComputeCommand>,
)
    requires
        g.compute_pass_invariant(old_pass),
        old_pass.base is Some,
        new_pass.base is Some,
        new_pass.base->0.dynamic_offsets@ == old_pass.base->0.dynamic_offsets@ + offsets,
        new_pass.base->0.string_data@ == old_pass.base->0.string_data@,
        new_pass.base->0.push_constant_data@ == old_pass.base->0.push_constant_data@,
        cmd is None ==> new_pass.base->0.commands@ == old_pass.base->0.commands@,
        cmd is Some ==> new_pass.base->0.commands@ == old_pass.base->0.commands@.push(cmd->0)
            && g.compute_command_refs_held(cmd->0) && compute_cmd_label_len(cmd->0) == 0
            && compute_cmd_offsets_len(cmd->0) <= offsets.len() && !(cmd->0 is SetPushConstant),
    ensures
        g.compute_pass_invariant(new_pass),
{
    let oc = old_pass.base->0.commands@;
    let nc = new_pass.base->0.commands@;
    if cmd is Some {
        assert(nc.drop_last() =~= oc);
        assert forall|i: int| 0 <= i < nc.len() implies g.compute_command_refs_held(#[trigger] nc[i]) by {
            if i < oc.len() {
                assert(nc[i] == oc[i]);
            }
        }
        assert forall|i: int| 0 <= i < nc.len() implies match #[trigger] nc[i] {
            ComputeCommand::SetPushConstant { offset: _, size_bytes, values_offset } =>
                values_offset + size_bytes / PUSH_CONSTANT_ALIGNMENT <= new_pass.base->0.push_constant_data@.len(),
            _ => true,
        } by {
            if i < oc.len() {
                assert(nc[i] == oc[i]);
            }
        }
    }
}

impl Global {
    /// Every resource that a command refers to is registered and valid.
    pub open spec fn compute_refs_valid(&self, cmds: Seq<ComputeCommand>) -> bool {
        forall|i: int| 0 <= i < cmds.len() ==> match #[trigger] cmds[i] {
            ComputeCommand::SetBindGroup { index: _, num_dynamic_offsets: _, bind_group } =>
                bind_group is Some ==> self.bind_groups.is_valid(bind_group->0),
            ComputeCommand::SetPipeline(p) => self.compute_pipelines.is_valid(p),
            ComputeCommand::DispatchIndirect { buffer, buffer_offset: _ } => self.buffers.is_valid(buffer),
            ComputeCommand::WriteTimestamp { query_set, query_index: _ } => self.query_sets.is_valid(query_set),
            ComputeCommand::BeginPipelineStatisticsQuery { query_set, query_index: _ } => self.query_sets.is_valid(query_set),
            _ => true,
        }
    }

    /// Begins a compute pass on `encoder_id` with the recorded data `base`,
    /// then ends it, replaying `base`'s commands.  Used to replay a recorded
    /// trace: every step must succeed (the encoder must record, the timestamp
    /// writes and every resource must be valid, and the replay must succeed),
    /// which `requires` states.
    pub fn compute_pass_end_with_unresolved_commands(
        &mut self,
        encoder_id: usize,
        base: BasePass<ComputeCommand>,
        timestamp_writes: Option<PassTimestampWrites>,
    )
        requires
            old(self).well_formed(),
            encoder_id < old(self).command_buffers@.len(),
            old(self).command_buffers@[encoder_id as int].status == EncoderStatus::Recording,
            timestamp_writes is Some ==> old(self).query_sets.has_id(timestamp_writes->0.query_set)
                && timestamp_writes_check(
                old(self).devices@[old(self).command_buffers@[encoder_id as int].device as int],
                old(self).command_buffers@[encoder_id as int].device,
                old(self).query_sets,
                timestamp_writes->0,
            ) is Ok,
            crate::replay::timestamp_indices_fit(timestamp_writes),
            old(self).compute_refs_valid(base.commands@),
            compute_push_constants_fit(base.commands@),
            compute_label_bytes(base.commands@) <= base.string_data@.len(),
            compute_dynamic_offsets(base.commands@) <= base.dynamic_offsets@.len(),
            forall|i: int| 0 <= i < base.commands@.len() ==> match #[trigger] base.commands@[i] {
                ComputeCommand::SetPushConstant { offset: _, size_bytes, values_offset } =>
                    values_offset + size_bytes / PUSH_CONSTANT_ALIGNMENT <= base.push_constant_data@.len(),
                _ => true,
            },
            old(self).devices@[old(self).command_buffers@[encoder_id as int].device as int].valid,
            compute_pass_replay(
                *old(self),
                old(self).command_buffers@[encoder_id as int].device,
                base.commands@,
                timestamp_writes,
            ) is Ok,
        ensures
            final(self).same_resources(*old(self)),
            final(self).command_buffers@.len() == old(self).command_buffers@.len(),
            forall|i: int| 0 <= i < old(self).command_buffers@.len() && i != encoder_id ==> final(self).command_buffers@[i]
                == old(self).command_buffers@[i],
            ({
                let cb = old(self).command_buffers@[encoder_id as int];
                let new_cb = final(self).command_buffers@[encoder_id as int];
                &&& new_cb.status == EncoderStatus::Recording
                &&& new_cb.device == cb.device
                &&& new_cb.as_actions == cb.as_actions
                &&& new_cb.commands@ == cb.commands@ + compute_pass_replay(*old(self), cb.device, base.commands@, timestamp_writes)->Ok_0
                &&& (new_cb.status, new_cb.commands@) == begin_then_end(*old(self), encoder_id, base.commands@, timestamp_writes)
            }),
    {
        let label = match &base.label {
            Some(l) => Some(l.clone()),
            None => None,
        };
        let desc = ComputePassDescriptor { label, timestamp_writes };
        let (mut pass, err) = self.command_encoder_begin_compute_pass(encoder_id, &desc);
        if err.is_some() {
            proof { assert(false); }
            return;
        }
        let ghost g1 = *self;
        pass.base = Some(base);
        proof {
            assert(self.compute_refs_held(pass.base->0.commands@)) by {
                assert forall|i: int| 0 <= i < pass.base->0.commands@.len() implies self.compute_command_refs_held(
                    #[trigger] pass.base->0.commands@[i],
                ) by {
                    assert(old(self).compute_refs_valid(base.commands@));
                    let c = base.commands@[i];
                    assert(match c {
                        ComputeCommand::SetBindGroup { index: _, num_dynamic_offsets: _, bind_group } =>
                            bind_group is Some ==> old(self).bind_groups.is_valid(bind_group->0),
                        ComputeCommand::SetPipeline(p) => old(self).compute_pipelines.is_valid(p),
                        ComputeCommand::DispatchIndirect { buffer, buffer_offset: _ } => old(self).buffers.is_valid(buffer),
                        ComputeCommand::WriteTimestamp { query_set, query_index: _ } => old(self).query_sets.is_valid(query_set),
                        ComputeCommand::BeginPipelineStatisticsQuery { query_set, query_index: _ } => old(self).query_sets.is_valid(query_set),
                        _ => true,
                    });
                }
            }
            assert(self.command_buffers@[encoder_id as int].status == EncoderStatus::Locked);
            assert(compute_pass_replay(*self, self.command_buffers@[encoder_id as int].device, base.commands@, timestamp_writes)
                == compute_pass_replay(*old(self), old(self).command_buffers@[encoder_id as int].device, base.commands@, timestamp_writes)) by {
                lemma_compute_pass_replay_same_resources(*self, *old(self), self.command_buffers@[encoder_id as int].device, base.commands@, timestamp_writes);
            }
        }
        let r = self.compute_pass_end(&mut pass);
        proof {
            assert(r is Ok);
        }
    }
}

} // verus!
