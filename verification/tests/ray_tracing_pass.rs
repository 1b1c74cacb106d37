use wgpu_core::global::{CommandBuffer, Global};
use wgpu_core::pass::{CommandEncoderError, EncoderStatus, PassError, PassErrorScope};
use wgpu_core::raw::{RawCommand, SbtRegion};
use wgpu_core::replay::LateBindingMismatch;
use wgpu_core::ray_tracing_pass::{
    ArcRayTracingCommand, RayTracingPassDescriptor, RayTracingPassErrorInner, TraceRaysError,
};
use wgpu_core::resource::{
    BindGroup, BindGroupLayout, Buffer, Device, Features, InvalidResourceError, Limits, PipelineLayout, RayTracingPipeline,
    ExclusivePipeline, Registry, ResourceKind, ShaderBindingData, Slot, BUFFER_USAGE_INDIRECT,
};

fn sbt() -> ShaderBindingData {
    ShaderBindingData { buffer: 0x5000, ray_generation_offset: 0, ray_miss_offset: 64, ray_hit_offset: 128 }
}

fn region(offset: u64, count: u32) -> SbtRegion {
    SbtRegion { table: 0x5000, offset, count }
}

fn rt_device() -> Device {
    Device {
        valid: true,
        features: Features {
            timestamp_query: true,
            timestamp_query_inside_passes: true,
            ray_query: true,
            ray_tracing_acceleration_structure: true,
            ray_hit_vertex_return: true,
            ray_tracing_pipelines: true,
            extended_acceleration_structure_vertex_formats: true,
        },
        limits: Limits {
            max_bind_groups: 4,
            max_compute_workgroups_per_dimension: 100,
            max_compute_workgroup_size_x: 10,
            max_compute_workgroup_size_y: 20,
            max_compute_workgroup_size_z: 30,
        },
        indirect_execution: true,
        indirect_validation: false,
        ray_tracing_scratch_buffer_alignment: 256,
        raw_tlas_instance_size: 64,
    }
}

fn slot<T>(t: T) -> Slot<T> {
    Slot { resource: Some(t), registered: true }
}

/// One device and encoder; a buffer (id 0) and a destroyed buffer (id 1);
/// a bind group layout (id 0) and a bind group of it (id 0); a pipeline
/// layout with that bind group layout in slot 0 (id 0) and an empty one
/// (id 1); pipelines with 3 hit groups on each layout (ids 0 and 1).
fn rt_hub() -> Global {
    Global {
        devices: vec![rt_device()],
        command_buffers: vec![CommandBuffer {
            device: 0,
            status: EncoderStatus::Recording,
            commands: vec![],
            as_actions: vec![],
        }],
        buffers: Registry {
            slots: vec![
                slot(Buffer { device: 0, size: 64, usage: BUFFER_USAGE_INDIRECT, destroyed: false }),
                slot(Buffer { device: 0, size: 64, usage: BUFFER_USAGE_INDIRECT, destroyed: true }),
            ],
        },
        query_sets: Registry { slots: vec![] },
        bind_group_layouts: Registry { slots: vec![slot(BindGroupLayout { device: 0, handle: 7, exclusive_pipeline: None })] },
        bind_groups: Registry { slots: vec![slot(BindGroup { device: 0, layout: 0, late_buffer_binding_sizes: vec![64] })] },
        pipeline_layouts: Registry {
            slots: vec![
                slot(PipelineLayout { device: 0, bind_group_layouts: vec![0], push_constant_ranges: vec![] }),
                slot(PipelineLayout { device: 0, bind_group_layouts: vec![], push_constant_ranges: vec![] }),
            ],
        },
        compute_pipelines: Registry { slots: vec![] },
        ray_tracing_pipelines: Registry {
            slots: vec![
                slot(RayTracingPipeline { device: 0, layout: 0, num_hit_groups: 3, shader_binding_data: sbt(), late_sized_buffer_groups: vec![vec![64]], label: None, shader_modules: vec![] }),
                slot(RayTracingPipeline { device: 0, layout: 1, num_hit_groups: 3, shader_binding_data: sbt(), late_sized_buffer_groups: vec![], label: None, shader_modules: vec![] }),
            ],
        },
        shader_modules: Registry { slots: vec![] },
        pipeline_caches: Registry { slots: vec![] },
        blas_s: Registry { slots: vec![] },
        tlas_s: Registry { slots: vec![] },
    }
}

fn rt_desc() -> RayTracingPassDescriptor {
    RayTracingPassDescriptor { label: None, timestamp_writes: None }
}

#[test]
fn a_ray_trace_is_replayed_with_the_pipelines_hit_groups() {
    let mut g = rt_hub();
    let (mut pass, err) = g.command_encoder_begin_ray_tracing_pass(0, &rt_desc());
    assert!(err.is_none());
    g.ray_tracing_pass_set_pipeline(&mut pass, 1).unwrap();
    g.ray_tracing_pass_trace_rays(&mut pass, 4, 5, 6).unwrap();
    g.ray_tracing_pass_end(&mut pass).unwrap();
    assert_eq!(
        g.command_buffers[0].commands,
        vec![
            RawCommand::BeginRayTracingPass { timestamp_writes: None },
            RawCommand::SetRayTracingPipeline { pipeline: 1 },
            RawCommand::TraceRays { count: [4, 5, 6], ray_generation: region(0, 1), ray_miss: region(64, 1), ray_hit: region(128, 3) },
            RawCommand::EndRayTracingPass,
        ]
    );
}

#[test]
fn ray_counts_are_limited_by_workgroup_size_times_count() {
    let mut g = rt_hub();
    let (mut pass, _) = g.command_encoder_begin_ray_tracing_pass(0, &rt_desc());
    g.ray_tracing_pass_set_pipeline(&mut pass, 1).unwrap();
    g.ray_tracing_pass_trace_rays(&mut pass, 1000, 2001, 1).unwrap();
    let err = g.ray_tracing_pass_end(&mut pass).unwrap_err();
    assert_eq!(err.scope, PassErrorScope::TraceRays { indirect: false });
    assert_eq!(
        err.inner,
        RayTracingPassErrorInner::TraceRays(TraceRaysError::InvalidGroupSize {
            current: [1000, 2001, 1],
            limit: [1000, 2000, 3000],
        })
    );
    assert_eq!(g.command_buffers[0].status, EncoderStatus::Error(CommandEncoderError::RayTracingPass(err)));
}

#[test]
fn a_trace_needs_a_pipeline() {
    let mut g = rt_hub();
    let (mut pass, _) = g.command_encoder_begin_ray_tracing_pass(0, &rt_desc());
    g.ray_tracing_pass_trace_rays(&mut pass, 1, 1, 1).unwrap();
    let err = g.ray_tracing_pass_end(&mut pass).unwrap_err();
    assert_eq!(err.inner, RayTracingPassErrorInner::TraceRays(TraceRaysError::MissingPipeline));
}

#[test]
fn a_trace_needs_the_layouts_bind_groups() {
    let mut g = rt_hub();
    let (mut pass, _) = g.command_encoder_begin_ray_tracing_pass(0, &rt_desc());
    g.ray_tracing_pass_set_pipeline(&mut pass, 0).unwrap();
    g.ray_tracing_pass_trace_rays(&mut pass, 1, 1, 1).unwrap();
    let err = g.ray_tracing_pass_end(&mut pass).unwrap_err();
    assert_eq!(err.inner, RayTracingPassErrorInner::TraceRays(TraceRaysError::IncompatibleBindGroup { index: 0 }));
}

#[test]
fn a_bound_group_of_the_layout_makes_the_trace_ready() {
    let mut g = rt_hub();
    let (mut pass, _) = g.command_encoder_begin_ray_tracing_pass(0, &rt_desc());
    g.ray_tracing_pass_set_bind_group(&mut pass, 0, Some(0), &[]).unwrap();
    g.ray_tracing_pass_set_pipeline(&mut pass, 0).unwrap();
    g.ray_tracing_pass_trace_rays(&mut pass, 1, 1, 1).unwrap();
    g.ray_tracing_pass_end(&mut pass).unwrap();
    assert_eq!(
        g.command_buffers[0].commands,
        vec![
            RawCommand::BeginRayTracingPass { timestamp_writes: None },
            RawCommand::SetRayTracingPipeline { pipeline: 0 },
            RawCommand::SetBindGroup { index: 0, bind_group: 0, offsets_start: 0, offsets_len: 0 },
            RawCommand::TraceRays { count: [1, 1, 1], ray_generation: region(0, 1), ray_miss: region(64, 1), ray_hit: region(128, 3) },
            RawCommand::EndRayTracingPass,
        ]
    );
}

#[test]
fn an_indirect_trace_of_a_destroyed_buffer_fails() {
    let mut g = rt_hub();
    let (mut pass, _) = g.command_encoder_begin_ray_tracing_pass(0, &rt_desc());
    g.ray_tracing_pass_set_pipeline(&mut pass, 1).unwrap();
    g.ray_tracing_pass_trace_rays_indirect(&mut pass, 1, 0).unwrap();
    let err = g.ray_tracing_pass_end(&mut pass).unwrap_err();
    assert_eq!(err.scope, PassErrorScope::TraceRays { indirect: true });
    assert_eq!(
        err.inner,
        RayTracingPassErrorInner::GeneralPass(PassError::DestroyedResource { kind: ResourceKind::Buffer, id: 1 })
    );
}

#[test]
fn an_indirect_trace_is_replayed() {
    let mut g = rt_hub();
    let (mut pass, _) = g.command_encoder_begin_ray_tracing_pass(0, &rt_desc());
    g.ray_tracing_pass_set_pipeline(&mut pass, 1).unwrap();
    g.ray_tracing_pass_trace_rays_indirect(&mut pass, 0, 8).unwrap();
    g.ray_tracing_pass_end(&mut pass).unwrap();
    assert_eq!(
        g.command_buffers[0].commands[2],
        RawCommand::TraceRaysIndirect { buffer: 0, offset: 8, ray_generation: region(0, 1), ray_miss: region(64, 1), ray_hit: region(128, 3) }
    );
}

#[test]
fn an_invalid_indirect_buffer_is_reported_before_an_ended_pass() {
    let mut g = rt_hub();
    g.buffers.slots.push(Slot { resource: None, registered: true });
    let (mut pass, _) = g.command_encoder_begin_ray_tracing_pass(0, &rt_desc());
    g.ray_tracing_pass_end(&mut pass).unwrap();
    let err = g.ray_tracing_pass_trace_rays_indirect(&mut pass, 2, 0).unwrap_err();
    assert_eq!(err.scope, PassErrorScope::TraceRays { indirect: false });
    assert_eq!(
        err.inner,
        RayTracingPassErrorInner::InvalidResource(InvalidResourceError { kind: ResourceKind::Buffer, id: 2 })
    );
    let err = g.ray_tracing_pass_trace_rays_indirect(&mut pass, 0, 0).unwrap_err();
    assert_eq!(err.inner, RayTracingPassErrorInner::PassEnded);
}

#[test]
fn ray_tracing_push_constants_keep_their_stages() {
    let mut g = rt_hub();
    let (mut pass, _) = g.command_encoder_begin_ray_tracing_pass(0, &rt_desc());
    g.ray_tracing_pass_set_push_constants(&mut pass, 32, 0, &[9u8, 0, 0, 0]).unwrap();
    let base = pass.base.as_ref().unwrap();
    assert_eq!(
        base.commands,
        vec![ArcRayTracingCommand::SetPushConstant { stages: 32, offset: 0, size_bytes: 4, values_offset: 0 }]
    );
    assert_eq!(base.push_constant_data, vec![u32::from_ne_bytes([9, 0, 0, 0])]);
}

#[test]
fn tracing_into_an_invalid_pass_fails() {
    let mut g = rt_hub();
    let (_first, _) = g.command_encoder_begin_ray_tracing_pass(0, &rt_desc());
    let (mut invalid, _) = g.command_encoder_begin_ray_tracing_pass(0, &rt_desc());
    assert_eq!(invalid.parent, None);
    let err = g.ray_tracing_pass_trace_rays(&mut invalid, 1, 1, 1).unwrap_err();
    assert_eq!(err.scope, PassErrorScope::TraceRays { indirect: false });
    assert_eq!(err.inner, RayTracingPassErrorInner::InvalidParentEncoder);
    assert!(invalid.base.as_ref().unwrap().commands.is_empty());
}

#[test]
fn a_late_sized_binding_smaller_than_the_shader_needs_fails() {
    let mut g = rt_hub();
    g.bind_groups.slots[0].resource.as_mut().unwrap().late_buffer_binding_sizes = vec![32];
    let (mut pass, _) = g.command_encoder_begin_ray_tracing_pass(0, &rt_desc());
    g.ray_tracing_pass_set_bind_group(&mut pass, 0, Some(0), &[]).unwrap();
    g.ray_tracing_pass_set_pipeline(&mut pass, 0).unwrap();
    g.ray_tracing_pass_trace_rays(&mut pass, 1, 1, 1).unwrap();
    let err = g.ray_tracing_pass_end(&mut pass).unwrap_err();
    assert_eq!(
        err.inner,
        RayTracingPassErrorInner::TraceRays(TraceRaysError::BindingSizeTooSmall(LateBindingMismatch {
            group_index: 0,
            compact_index: 0,
            shader_size: 64,
            bound_size: 32,
        }))
    );
}

#[test]
fn a_missing_late_sized_binding_counts_as_size_zero() {
    let mut g = rt_hub();
    g.bind_groups.slots[0].resource.as_mut().unwrap().late_buffer_binding_sizes = vec![];
    let (mut pass, _) = g.command_encoder_begin_ray_tracing_pass(0, &rt_desc());
    g.ray_tracing_pass_set_bind_group(&mut pass, 0, Some(0), &[]).unwrap();
    g.ray_tracing_pass_set_pipeline(&mut pass, 0).unwrap();
    g.ray_tracing_pass_trace_rays(&mut pass, 1, 1, 1).unwrap();
    let err = g.ray_tracing_pass_end(&mut pass).unwrap_err();
    assert_eq!(
        err.inner,
        RayTracingPassErrorInner::TraceRays(TraceRaysError::BindingSizeTooSmall(LateBindingMismatch {
            group_index: 0,
            compact_index: 0,
            shader_size: 64,
            bound_size: 0,
        }))
    );
}

#[test]
fn a_bind_group_of_a_layout_exclusive_to_another_pipeline_is_incompatible() {
    let mut g = rt_hub();
    g.bind_group_layouts.slots[0].resource.as_mut().unwrap().exclusive_pipeline = Some(ExclusivePipeline::RayTracing(1));
    let (mut pass, _) = g.command_encoder_begin_ray_tracing_pass(0, &rt_desc());
    g.ray_tracing_pass_set_bind_group(&mut pass, 0, Some(0), &[]).unwrap();
    g.ray_tracing_pass_set_pipeline(&mut pass, 0).unwrap();
    g.ray_tracing_pass_trace_rays(&mut pass, 1, 1, 1).unwrap();
    let err = g.ray_tracing_pass_end(&mut pass).unwrap_err();
    assert_eq!(err.inner, RayTracingPassErrorInner::TraceRays(TraceRaysError::IncompatibleBindGroup { index: 0 }));
}

#[test]
fn a_bind_group_of_a_layout_exclusive_to_the_pipeline_is_compatible() {
    let mut g = rt_hub();
    g.bind_group_layouts.slots[0].resource.as_mut().unwrap().exclusive_pipeline = Some(ExclusivePipeline::RayTracing(0));
    let (mut pass, _) = g.command_encoder_begin_ray_tracing_pass(0, &rt_desc());
    g.ray_tracing_pass_set_bind_group(&mut pass, 0, Some(0), &[]).unwrap();
    g.ray_tracing_pass_set_pipeline(&mut pass, 0).unwrap();
    g.ray_tracing_pass_trace_rays(&mut pass, 1, 1, 1).unwrap();
    assert_eq!(g.ray_tracing_pass_end(&mut pass), Ok(()));
}
