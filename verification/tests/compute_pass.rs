use wgpu_core::compute::{ComputeCommand, ComputePassDescriptor, ComputePassErrorInner, DispatchError};
use wgpu_core::global::{CommandBuffer, Global};
use wgpu_core::pass::{CommandEncoderError, EncoderStateError, EncoderStatus, PassError, PassErrorScope};
use wgpu_core::raw::RawCommand;
use wgpu_core::resource::{
    BUFFER_USES_INDIRECT,
    Buffer, ComputePipeline, Device, Features, InvalidResourceError, Limits, PipelineLayout, PushConstantRange, Registry,
    ResourceKind, Slot, BUFFER_USAGE_INDIRECT, SHADER_STAGE_COMPUTE,
};

fn compute_device() -> Device {
    Device {
        valid: true,
        features: Features {
            timestamp_query: true,
            timestamp_query_inside_passes: true,
            ray_query: true,
            ray_tracing_acceleration_structure: true,
            ray_hit_vertex_return: true,
            ray_tracing_pipelines: true,
            extended_acceleration_structure_vertex_formats: true,
        },
        limits: Limits {
            max_bind_groups: 4,
            max_compute_workgroups_per_dimension: 65535,
            max_compute_workgroup_size_x: 256,
            max_compute_workgroup_size_y: 256,
            max_compute_workgroup_size_z: 64,
        },
        indirect_execution: true,
        indirect_validation: false,
        ray_tracing_scratch_buffer_alignment: 256,
        raw_tlas_instance_size: 64,
    }
}

fn held<T>(t: T) -> Slot<T> {
    Slot { resource: Some(t), registered: true }
}

/// One device, one recording encoder, an indirect buffer of 16 bytes
/// (id 0), a pipeline layout with 16 bytes of compute push constants, a
/// valid compute pipeline (id 0) and an invalid one (id 1).
fn compute_hub() -> Global {
    Global {
        devices: vec![compute_device()],
        command_buffers: vec![CommandBuffer {
            device: 0,
            status: EncoderStatus::Recording,
            commands: vec![],
            as_actions: vec![],
        }],
        buffers: Registry {
            slots: vec![held(Buffer { device: 0, size: 16, usage: BUFFER_USAGE_INDIRECT, destroyed: false })],
        },
        query_sets: Registry { slots: vec![] },
        bind_group_layouts: Registry { slots: vec![] },
        bind_groups: Registry { slots: vec![] },
        pipeline_layouts: Registry {
            slots: vec![held(PipelineLayout {
                device: 0,
                bind_group_layouts: vec![],
                push_constant_ranges: vec![PushConstantRange { stages: SHADER_STAGE_COMPUTE, start: 0, end: 16 }],
            })],
        },
        compute_pipelines: Registry {
            slots: vec![held(ComputePipeline { device: 0, layout: 0, late_sized_buffer_groups: vec![] }), Slot { resource: None, registered: true }],
        },
        ray_tracing_pipelines: Registry { slots: vec![] },
        shader_modules: Registry { slots: vec![] },
        pipeline_caches: Registry { slots: vec![] },
        blas_s: Registry { slots: vec![] },
        tlas_s: Registry { slots: vec![] },
    }
}

fn plain_desc() -> ComputePassDescriptor {
    ComputePassDescriptor { label: Some("pass".to_string()), timestamp_writes: None }
}

#[test]
fn beginning_a_pass_locks_the_encoder() {
    let mut g = compute_hub();
    let (pass, err) = g.command_encoder_begin_compute_pass(0, &plain_desc());
    assert!(err.is_none());
    assert_eq!(pass.parent, Some(0));
    assert_eq!(pass.label(), Some("pass"));
    assert_eq!(g.command_buffers[0].status, EncoderStatus::Locked);
}

#[test]
fn beginning_a_pass_on_a_locked_encoder_invalidates_it() {
    let mut g = compute_hub();
    let (_first, _) = g.command_encoder_begin_compute_pass(0, &plain_desc());
    let (second, err) = g.command_encoder_begin_compute_pass(0, &plain_desc());
    assert_eq!(err, Some(CommandEncoderError::State(EncoderStateError::Locked)));
    assert_eq!(second.parent, None);
    assert_eq!(g.command_buffers[0].status, EncoderStatus::Error(CommandEncoderError::State(EncoderStateError::Locked)));
}

#[test]
fn setting_the_same_pipeline_twice_records_it_once() {
    let mut g = compute_hub();
    let (mut pass, _) = g.command_encoder_begin_compute_pass(0, &plain_desc());
    assert!(g.compute_pass_set_pipeline(&mut pass, 0).is_ok());
    assert!(g.compute_pass_set_pipeline(&mut pass, 0).is_ok());
    assert_eq!(pass.base.as_ref().unwrap().commands, vec![ComputeCommand::SetPipeline(0)]);
}

#[test]
fn setting_an_invalid_pipeline_fails() {
    let mut g = compute_hub();
    let (mut pass, _) = g.command_encoder_begin_compute_pass(0, &plain_desc());
    let err = g.compute_pass_set_pipeline(&mut pass, 1).unwrap_err();
    assert_eq!(err.scope, PassErrorScope::SetPipelineCompute);
    assert_eq!(
        err.inner,
        ComputePassErrorInner::InvalidResource(InvalidResourceError { kind: ResourceKind::ComputePipeline, id: 1 })
    );
    assert!(pass.base.as_ref().unwrap().commands.is_empty());
}

#[test]
fn push_constants_are_stored_as_native_endian_words() {
    let mut g = compute_hub();
    let (mut pass, _) = g.command_encoder_begin_compute_pass(0, &plain_desc());
    let data = [1u8, 2, 3, 4, 5, 6, 7, 8];
    assert!(g.compute_pass_set_push_constants(&mut pass, 4, &data).is_ok());
    let base = pass.base.as_ref().unwrap();
    assert_eq!(
        base.push_constant_data,
        vec![u32::from_ne_bytes([1, 2, 3, 4]), u32::from_ne_bytes([5, 6, 7, 8])]
    );
    assert_eq!(
        base.commands,
        vec![ComputeCommand::SetPushConstant { offset: 4, size_bytes: 8, values_offset: 0 }]
    );
}

#[test]
fn push_constants_need_aligned_offset_and_size() {
    let mut g = compute_hub();
    let (mut pass, _) = g.command_encoder_begin_compute_pass(0, &plain_desc());
    let err = g.compute_pass_set_push_constants(&mut pass, 2, &[0u8; 4]).unwrap_err();
    assert_eq!(err.inner, ComputePassErrorInner::PushConstantOffsetAlignment);
    let err = g.compute_pass_set_push_constants(&mut pass, 0, &[0u8; 3]).unwrap_err();
    assert_eq!(err.inner, ComputePassErrorInner::PushConstantSizeAlignment);
}

#[test]
fn a_dispatch_is_replayed_into_the_encoder() {
    let mut g = compute_hub();
    let (mut pass, _) = g.command_encoder_begin_compute_pass(0, &plain_desc());
    g.compute_pass_set_pipeline(&mut pass, 0).unwrap();
    g.compute_pass_dispatch_workgroups(&mut pass, 1, 2, 3).unwrap();
    assert!(g.compute_pass_end(&mut pass).is_ok());
    assert!(pass.base.is_none());
    assert_eq!(g.command_buffers[0].status, EncoderStatus::Recording);
    assert_eq!(
        g.command_buffers[0].commands,
        vec![
            RawCommand::BeginComputePass { timestamp_writes: None },
            RawCommand::SetComputePipeline { pipeline: 0 },
            RawCommand::Dispatch { groups: [1, 2, 3] },
            RawCommand::EndComputePass,
        ]
    );
}

#[test]
fn a_dispatch_without_a_pipeline_fails_at_the_end_of_the_pass() {
    let mut g = compute_hub();
    let (mut pass, _) = g.command_encoder_begin_compute_pass(0, &plain_desc());
    g.compute_pass_dispatch_workgroups(&mut pass, 1, 1, 1).unwrap();
    let err = g.compute_pass_end(&mut pass).unwrap_err();
    assert_eq!(err.scope, PassErrorScope::Dispatch { indirect: false });
    assert_eq!(err.inner, ComputePassErrorInner::Dispatch(DispatchError::MissingPipeline));
    assert_eq!(g.command_buffers[0].status, EncoderStatus::Error(CommandEncoderError::ComputePass(err)));
    assert!(g.command_buffers[0].commands.is_empty());
}

#[test]
fn a_dispatch_over_the_limit_fails() {
    let mut g = compute_hub();
    let (mut pass, _) = g.command_encoder_begin_compute_pass(0, &plain_desc());
    g.compute_pass_set_pipeline(&mut pass, 0).unwrap();
    g.compute_pass_dispatch_workgroups(&mut pass, 1, 70000, 1).unwrap();
    let err = g.compute_pass_end(&mut pass).unwrap_err();
    assert_eq!(
        err.inner,
        ComputePassErrorInner::Dispatch(DispatchError::InvalidGroupSize { current: [1, 70000, 1], limit: 65535 })
    );
}

#[test]
fn an_indirect_dispatch_past_the_buffer_end_fails() {
    let mut g = compute_hub();
    let (mut pass, _) = g.command_encoder_begin_compute_pass(0, &plain_desc());
    g.compute_pass_set_pipeline(&mut pass, 0).unwrap();
    g.compute_pass_dispatch_workgroups_indirect(&mut pass, 0, 8).unwrap();
    let err = g.compute_pass_end(&mut pass).unwrap_err();
    assert_eq!(err.scope, PassErrorScope::Dispatch { indirect: true });
    assert_eq!(
        err.inner,
        ComputePassErrorInner::IndirectBufferOverrun { offset: 8, end_offset: 20, buffer_size: 16 }
    );
}

#[test]
fn an_indirect_dispatch_inside_the_buffer_is_replayed() {
    let mut g = compute_hub();
    let (mut pass, _) = g.command_encoder_begin_compute_pass(0, &plain_desc());
    g.compute_pass_set_pipeline(&mut pass, 0).unwrap();
    g.compute_pass_dispatch_workgroups_indirect(&mut pass, 0, 4).unwrap();
    g.compute_pass_end(&mut pass).unwrap();
    assert_eq!(
        g.command_buffers[0].commands[2..5].to_vec(),
        vec![
            RawCommand::RequireInitializedMemory { buffer: 0, start: 4, end: 16 },
            RawCommand::UseBuffer { buffer: 0, usage: BUFFER_USES_INDIRECT },
            RawCommand::DispatchIndirect { buffer: 0, offset: 4 },
        ]
    );
}

#[test]
fn an_unaligned_indirect_offset_fails() {
    let mut g = compute_hub();
    let (mut pass, _) = g.command_encoder_begin_compute_pass(0, &plain_desc());
    g.compute_pass_set_pipeline(&mut pass, 0).unwrap();
    g.compute_pass_dispatch_workgroups_indirect(&mut pass, 0, 2).unwrap();
    let err = g.compute_pass_end(&mut pass).unwrap_err();
    assert_eq!(err.inner, ComputePassErrorInner::UnalignedIndirectBufferOffset(2));
}

#[test]
fn ending_a_pass_twice_fails() {
    let mut g = compute_hub();
    let (mut pass, _) = g.command_encoder_begin_compute_pass(0, &plain_desc());
    g.compute_pass_end(&mut pass).unwrap();
    let err = g.compute_pass_end(&mut pass).unwrap_err();
    assert_eq!(err.scope, PassErrorScope::Pass);
    assert_eq!(err.inner, ComputePassErrorInner::PassEnded);
    let err = g.compute_pass_dispatch_workgroups(&mut pass, 1, 1, 1).unwrap_err();
    assert_eq!(err.inner, ComputePassErrorInner::PassEnded);
}

#[test]
fn popping_a_debug_group_that_was_not_pushed_fails() {
    let mut g = compute_hub();
    let (mut pass, _) = g.command_encoder_begin_compute_pass(0, &plain_desc());
    g.compute_pass_pop_debug_group(&mut pass).unwrap();
    let err = g.compute_pass_end(&mut pass).unwrap_err();
    assert_eq!(err.scope, PassErrorScope::PopDebugGroup);
    assert_eq!(err.inner, ComputePassErrorInner::GeneralPass(PassError::InvalidPopDebugGroup));
}

#[test]
fn debug_labels_are_replayed_by_their_byte_ranges() {
    let mut g = compute_hub();
    let (mut pass, _) = g.command_encoder_begin_compute_pass(0, &plain_desc());
    g.compute_pass_push_debug_group(&mut pass, "outer", 0).unwrap();
    g.compute_pass_insert_debug_marker(&mut pass, "mark", 0).unwrap();
    g.compute_pass_pop_debug_group(&mut pass).unwrap();
    assert_eq!(pass.base.as_ref().unwrap().string_data, b"outermark".to_vec());
    g.compute_pass_end(&mut pass).unwrap();
    assert_eq!(
        g.command_buffers[0].commands,
        vec![
            RawCommand::BeginComputePass { timestamp_writes: None },
            RawCommand::BeginDebugMarker { label_start: 0, label_len: 5 },
            RawCommand::InsertDebugMarker { label_start: 5, label_len: 4 },
            RawCommand::EndDebugMarker,
            RawCommand::EndComputePass,
        ]
    );
}

#[test]
fn an_invalid_pass_cannot_end() {
    let mut g = compute_hub();
    g.command_buffers[0].status = EncoderStatus::Finished;
    let (mut pass, err) = g.command_encoder_begin_compute_pass(0, &plain_desc());
    assert_eq!(err, Some(CommandEncoderError::State(EncoderStateError::Ended)));
    let err = g.compute_pass_end(&mut pass).unwrap_err();
    assert_eq!(err.inner, ComputePassErrorInner::InvalidParentEncoder);
}

#[test]
fn a_push_constant_upload_past_the_layout_range_fails() {
    let mut g = compute_hub();
    let (mut pass, _) = g.command_encoder_begin_compute_pass(0, &plain_desc());
    g.compute_pass_set_pipeline(&mut pass, 0).unwrap();
    g.compute_pass_set_push_constants(&mut pass, 12, &[0u8; 8]).unwrap();
    let err = g.compute_pass_end(&mut pass).unwrap_err();
    assert_eq!(err.scope, PassErrorScope::SetPushConstant);
    assert!(matches!(err.inner, ComputePassErrorInner::GeneralPass(PassError::PushConstants(_))));
}

#[test]
fn recording_into_an_invalid_pass_fails() {
    let mut g = compute_hub();
    let (_first, _) = g.command_encoder_begin_compute_pass(0, &plain_desc());
    let (mut invalid, _) = g.command_encoder_begin_compute_pass(0, &plain_desc());
    assert_eq!(invalid.parent, None);
    let err = g.compute_pass_dispatch_workgroups(&mut invalid, 1, 1, 1).unwrap_err();
    assert_eq!(err.scope, PassErrorScope::Dispatch { indirect: false });
    assert_eq!(err.inner, ComputePassErrorInner::InvalidParentEncoder);
    assert!(invalid.base.as_ref().unwrap().commands.is_empty());
    let err = g.compute_pass_push_debug_group(&mut invalid, "group", 0).unwrap_err();
    assert_eq!(err.inner, ComputePassErrorInner::InvalidParentEncoder);
}

#[test]
fn push_constants_past_u32_are_refused() {
    let mut g = compute_hub();
    let (mut pass, _) = g.command_encoder_begin_compute_pass(0, &plain_desc());
    let err = g.compute_pass_set_push_constants(&mut pass, 0xffff_fffc, &[0, 0, 0, 0, 0, 0, 0, 0]).unwrap_err();
    assert_eq!(err.inner, ComputePassErrorInner::PushConstantOutOfMemory);
    assert!(pass.base.as_ref().unwrap().push_constant_data.is_empty());
}
