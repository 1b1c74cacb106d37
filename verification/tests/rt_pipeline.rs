use wgpu_core::api::{
    BindGroupLayout as BindGroupLayoutHandle, DispatchBindGroupLayout, DispatchRayTracingPipeline,
    RayTracingPipeline as RayTracingPipelineHandle,
};
use wgpu_core::global::{CommandBuffer, Global};
use wgpu_core::pass::{DeviceError, EncoderStatus, MissingFeature};
use wgpu_core::resource::{
    BindGroupLayout, ExclusivePipeline, Device, Features, InvalidResourceError, Limits, PipelineCache, PipelineLayout, RayTracingPipeline,
    Registry, ResourceKind, ShaderBindingData, ShaderEntryPoint, ShaderModule, Slot,
};
use wgpu_core::rt_pipeline::{
    CreateRayTracingPipelineError, GetBindGroupLayoutError, ImplicitLayoutError, ImplicitPipelineIds,
    ProgrammableStageDescriptor, RayTracingHitGroupDescriptor, RayTracingPipelineDescriptor, StageError,
    SHADER_STAGE_ANY_HIT, SHADER_STAGE_CLOSEST_HIT, SHADER_STAGE_MISS, SHADER_STAGE_RAY_GENERATION,
};

fn rt_device(pipelines: bool) -> Device {
    Device {
        valid: true,
        features: Features {
            timestamp_query: false,
            timestamp_query_inside_passes: false,
            ray_query: false,
            ray_tracing_acceleration_structure: true,
            ray_hit_vertex_return: false,
            ray_tracing_pipelines: pipelines,
            extended_acceleration_structure_vertex_formats: false,
        },
        limits: Limits {
            max_bind_groups: 4,
            max_compute_workgroups_per_dimension: 65535,
            max_compute_workgroup_size_x: 256,
            max_compute_workgroup_size_y: 256,
            max_compute_workgroup_size_z: 64,
        },
        indirect_execution: true,
        indirect_validation: false,
        ray_tracing_scratch_buffer_alignment: 256,
        raw_tlas_instance_size: 64,
    }
}

fn sbt() -> ShaderBindingData {
    ShaderBindingData { buffer: 0x5000, ray_generation_offset: 0, ray_miss_offset: 64, ray_hit_offset: 128 }
}

fn present<T>(t: T) -> Slot<T> {
    Slot { resource: Some(t), registered: true }
}

fn bgl(handle: u64) -> BindGroupLayout {
    BindGroupLayout { device: 0, handle, exclusive_pipeline: None }
}

fn entry(stage: u32, name: &str) -> ShaderEntryPoint {
    ShaderEntryPoint { stage, name: name.to_string() }
}

/// Module 0 holds one entry point of each ray tracing stage; module 1 has
/// two closest-hit entry points and no miss entry point; module 2 has no
/// interface; module 3 failed to be created; module 4 lives on device 1.
/// Pipeline layout 0 has bind group layouts 0 and 1; layout 1 has three
/// (0, 1, 0); layout 2 failed.  Cache 0 is valid.
fn rt_hub(pipelines: bool) -> Global {
    Global {
        devices: vec![rt_device(pipelines), rt_device(pipelines)],
        command_buffers: vec![CommandBuffer {
            device: 0,
            status: EncoderStatus::Recording,
            commands: vec![],
            as_actions: vec![],
        }],
        buffers: Registry { slots: vec![] },
        query_sets: Registry { slots: vec![] },
        bind_group_layouts: Registry {
            slots: vec![
                present(bgl(11)),
                present(bgl(22)),
            ],
        },
        bind_groups: Registry { slots: vec![] },
        pipeline_layouts: Registry {
            slots: vec![
                present(PipelineLayout { device: 0, bind_group_layouts: vec![0, 1], push_constant_ranges: vec![] }),
                present(PipelineLayout { device: 0, bind_group_layouts: vec![0, 1, 0], push_constant_ranges: vec![] }),
                Slot { resource: None, registered: true },
            ],
        },
        compute_pipelines: Registry { slots: vec![] },
        ray_tracing_pipelines: Registry { slots: vec![] },
        shader_modules: Registry {
            slots: vec![
                present(ShaderModule {
                    device: 0,
                    interface: Some(vec![
                        entry(SHADER_STAGE_RAY_GENERATION, "gen"),
                        entry(SHADER_STAGE_MISS, "miss"),
                        entry(SHADER_STAGE_CLOSEST_HIT, "hit"),
                        entry(SHADER_STAGE_ANY_HIT, "any"),
                    ]),
                }),
                present(ShaderModule {
                    device: 0,
                    interface: Some(vec![
                        entry(SHADER_STAGE_CLOSEST_HIT, "hit_a"),
                        entry(SHADER_STAGE_CLOSEST_HIT, "hit_b"),
                    ]),
                }),
                present(ShaderModule { device: 0, interface: None }),
                Slot { resource: None, registered: true },
                present(ShaderModule { device: 1, interface: None }),
            ],
        },
        pipeline_caches: Registry { slots: vec![present(PipelineCache { device: 0 })] },
        blas_s: Registry { slots: vec![] },
        tlas_s: Registry { slots: vec![] },
    }
}

fn stage(module: usize, entry_point: Option<&str>) -> ProgrammableStageDescriptor {
    ProgrammableStageDescriptor {
        module,
        entry_point: entry_point.map(|s| s.to_string()),
        zero_initialize_workgroup_memory: true,
    }
}

fn hit_group(closest: ProgrammableStageDescriptor, any: Option<ProgrammableStageDescriptor>) -> RayTracingHitGroupDescriptor {
    RayTracingHitGroupDescriptor { ray_closest_hit_stage: closest, ray_any_hit_stage: any }
}

fn descriptor(layout: Option<usize>) -> RayTracingPipelineDescriptor {
    RayTracingPipelineDescriptor {
        label: None,
        layout,
        ray_generation_stage: stage(0, None),
        ray_miss_stage: stage(0, None),
        ray_hit_groups: vec![hit_group(stage(0, None), Some(stage(0, None)))],
        max_recursion_depth: 1,
        cache: Some(0),
    }
}

fn created(g: &Global, id: usize) -> &RayTracingPipeline {
    g.ray_tracing_pipelines.slots[id].resource.as_ref().unwrap()
}

#[test]
fn pipeline_with_layout_is_created() {
    let mut g = rt_hub(true);
    let (id, err) = g.device_create_ray_tracing_pipeline(0, &descriptor(Some(0)), None, None, 1, vec![], None, vec![], sbt());
    assert_eq!(id, 0);
    assert_eq!(err, None);
    let p = created(&g, 0);
    assert_eq!(p.device, 0);
    assert_eq!(p.layout, 0);
    assert_eq!(p.num_hit_groups, 1);
    assert!(g.ray_tracing_pipelines.slots[0].registered);
}

#[test]
fn pipeline_without_layout_takes_the_derived_one() {
    let mut g = rt_hub(true);
    let ids = ImplicitPipelineIds { root_id: 7, group_ids: vec![8, 9, 10] };
    let (id, err) = g.device_create_ray_tracing_pipeline(0, &descriptor(None), Some(3), Some(ids), 1, vec![], None, vec![], sbt());
    assert_eq!(err, None);
    assert_eq!(created(&g, id).layout, 1);
}

#[test]
fn several_hit_groups_are_counted() {
    let mut g = rt_hub(true);
    let mut desc = descriptor(Some(0));
    desc.ray_hit_groups.push(hit_group(stage(1, Some("hit_b")), None));
    desc.ray_hit_groups.push(hit_group(stage(0, Some("hit")), None));
    let (id, err) = g.device_create_ray_tracing_pipeline(0, &desc, None, None, 0, vec![], None, vec![], sbt());
    assert_eq!(err, None);
    assert_eq!(created(&g, id).num_hit_groups, 3);
}

#[test]
fn invalid_device_is_refused() {
    let mut g = rt_hub(true);
    g.devices[0].valid = false;
    let (id, err) = g.device_create_ray_tracing_pipeline(0, &descriptor(Some(0)), None, None, 0, vec![], None, vec![], sbt());
    assert_eq!(err, Some(CreateRayTracingPipelineError::Device(DeviceError::Invalid)));
    assert!(g.ray_tracing_pipelines.slots[id].resource.is_none());
    assert!(g.ray_tracing_pipelines.slots[id].registered);
}

#[test]
fn missing_feature_is_refused() {
    let mut g = rt_hub(false);
    let (_, err) = g.device_create_ray_tracing_pipeline(0, &descriptor(Some(0)), None, None, 0, vec![], None, vec![], sbt());
    assert_eq!(err, Some(CreateRayTracingPipelineError::MissingFeature(MissingFeature::RayTracingPipelines)));
}

#[test]
fn invalid_layout_is_refused_before_the_device() {
    let mut g = rt_hub(true);
    g.devices[0].valid = false;
    let (_, err) = g.device_create_ray_tracing_pipeline(0, &descriptor(Some(2)), None, None, 0, vec![], None, vec![], sbt());
    assert_eq!(
        err,
        Some(CreateRayTracingPipelineError::InvalidResource(InvalidResourceError {
            kind: ResourceKind::PipelineLayout,
            id: 2,
        }))
    );
}

#[test]
fn invalid_ray_generation_module_is_refused() {
    let mut g = rt_hub(true);
    let mut desc = descriptor(Some(0));
    desc.ray_generation_stage = stage(3, Some("gen"));
    let (_, err) = g.device_create_ray_tracing_pipeline(0, &desc, None, None, 0, vec![], None, vec![], sbt());
    assert_eq!(
        err,
        Some(CreateRayTracingPipelineError::Stage {
            stage: SHADER_STAGE_RAY_GENERATION,
            error: StageError::InvalidResource(InvalidResourceError { kind: ResourceKind::ShaderModule, id: 3 }),
        })
    );
}

#[test]
fn invalid_any_hit_module_is_refused() {
    let mut g = rt_hub(true);
    let mut desc = descriptor(Some(0));
    desc.ray_hit_groups.push(hit_group(stage(0, None), Some(stage(3, None))));
    let (_, err) = g.device_create_ray_tracing_pipeline(0, &desc, None, None, 0, vec![], None, vec![], sbt());
    assert_eq!(
        err,
        Some(CreateRayTracingPipelineError::Stage {
            stage: SHADER_STAGE_ANY_HIT,
            error: StageError::InvalidResource(InvalidResourceError { kind: ResourceKind::ShaderModule, id: 3 }),
        })
    );
}

#[test]
fn miss_stage_without_entry_point_is_refused() {
    let mut g = rt_hub(true);
    let mut desc = descriptor(Some(0));
    desc.ray_miss_stage = stage(1, None);
    let (_, err) = g.device_create_ray_tracing_pipeline(0, &desc, None, None, 0, vec![], None, vec![], sbt());
    assert_eq!(
        err,
        Some(CreateRayTracingPipelineError::Stage { stage: SHADER_STAGE_MISS, error: StageError::NoEntryPointFound })
    );
}

#[test]
fn module_without_interface_needs_a_named_entry_point() {
    let mut g = rt_hub(true);
    let mut desc = descriptor(Some(0));
    desc.ray_generation_stage = stage(2, None);
    let (_, err) = g.device_create_ray_tracing_pipeline(0, &desc, None, None, 0, vec![], None, vec![], sbt());
    assert_eq!(
        err,
        Some(CreateRayTracingPipelineError::Stage {
            stage: SHADER_STAGE_RAY_GENERATION,
            error: StageError::NoEntryPointFound,
        })
    );
    let mut desc = descriptor(Some(0));
    desc.ray_generation_stage = stage(2, Some("main"));
    let (_, err) = g.device_create_ray_tracing_pipeline(0, &desc, None, None, 0, vec![], None, vec![], sbt());
    assert_eq!(err, None);
}

#[test]
fn ambiguous_closest_hit_entry_point_is_refused() {
    let mut g = rt_hub(true);
    let mut desc = descriptor(Some(0));
    desc.ray_hit_groups = vec![hit_group(stage(1, None), None)];
    let (_, err) = g.device_create_ray_tracing_pipeline(0, &desc, None, None, 0, vec![], None, vec![], sbt());
    assert_eq!(
        err,
        Some(CreateRayTracingPipelineError::Stage {
            stage: SHADER_STAGE_CLOSEST_HIT,
            error: StageError::MultipleEntryPointsFound,
        })
    );
}

#[test]
fn module_of_another_device_is_refused() {
    let mut g = rt_hub(true);
    let mut desc = descriptor(Some(0));
    desc.ray_miss_stage = stage(4, Some("miss"));
    let (_, err) = g.device_create_ray_tracing_pipeline(0, &desc, None, None, 0, vec![], None, vec![], sbt());
    assert_eq!(
        err,
        Some(CreateRayTracingPipelineError::Device(DeviceError::DeviceMismatch {
            kind: ResourceKind::ShaderModule,
            id: 4,
        }))
    );
}

#[test]
fn cache_of_another_device_is_refused_last() {
    let mut g = rt_hub(true);
    g.pipeline_caches.slots[0] = present(PipelineCache { device: 1 });
    let (_, err) = g.device_create_ray_tracing_pipeline(0, &descriptor(Some(0)), None, None, 0, vec![], None, vec![], sbt());
    assert_eq!(
        err,
        Some(CreateRayTracingPipelineError::Device(DeviceError::DeviceMismatch {
            kind: ResourceKind::PipelineCache,
            id: 0,
        }))
    );
}

#[test]
fn chosen_id_without_implicit_ids_is_refused() {
    let mut g = rt_hub(true);
    let (_, err) = g.device_create_ray_tracing_pipeline(0, &descriptor(None), Some(5), None, 0, vec![], None, vec![], sbt());
    assert_eq!(err, Some(CreateRayTracingPipelineError::Implicit(ImplicitLayoutError::MissingImplicitPipelineIds)));
}

#[test]
fn too_few_implicit_ids_are_refused() {
    let mut g = rt_hub(true);
    let ids = ImplicitPipelineIds { root_id: 7, group_ids: vec![8, 9] };
    let (_, err) = g.device_create_ray_tracing_pipeline(0, &descriptor(None), Some(5), Some(ids), 1, vec![], None, vec![], sbt());
    assert_eq!(err, Some(CreateRayTracingPipelineError::Implicit(ImplicitLayoutError::MissingIds(3))));
}

#[test]
fn bind_group_layout_of_pipeline() {
    let mut g = rt_hub(true);
    let (p, _) = g.device_create_ray_tracing_pipeline(0, &descriptor(Some(0)), None, None, 0, vec![], None, vec![], sbt());
    let (id, err) = g.ray_tracing_pipeline_get_bind_group_layout(p, 1, None);
    assert_eq!(err, None);
    assert_eq!(id, 2);
    assert_eq!(g.bind_group_layouts.slots[id].resource, Some(bgl(22)));
}

#[test]
fn bind_group_layout_index_past_the_layout() {
    let mut g = rt_hub(true);
    let (p, _) = g.device_create_ray_tracing_pipeline(0, &descriptor(Some(0)), None, None, 0, vec![], None, vec![], sbt());
    let (bgl, err) = g.ray_tracing_pipeline_get_bind_group_layout(p, 2, None);
    assert_eq!(err, Some(GetBindGroupLayoutError::InvalidGroupIndex(2)));
    assert!(g.bind_group_layouts.slots[bgl].resource.is_none());
}

#[test]
fn bind_group_layout_of_invalid_pipeline() {
    let mut g = rt_hub(false);
    let (p, _) = g.device_create_ray_tracing_pipeline(0, &descriptor(Some(0)), None, None, 0, vec![], None, vec![], sbt());
    let (_, err) = g.ray_tracing_pipeline_get_bind_group_layout(p, 0, None);
    assert_eq!(
        err,
        Some(GetBindGroupLayoutError::InvalidResource(InvalidResourceError {
            kind: ResourceKind::RayTracingPipeline,
            id: p,
        }))
    );
}

#[test]
fn dropped_pipeline_is_unregistered() {
    let mut g = rt_hub(true);
    let (p, _) = g.device_create_ray_tracing_pipeline(0, &descriptor(Some(0)), None, None, 0, vec![], None, vec![], sbt());
    g.ray_tracing_pipeline_drop(p);
    assert!(!g.ray_tracing_pipelines.slots[p].registered);
    assert_eq!(created(&g, p).layout, 0);
}

#[test]
fn handle_get_bind_group_layout_reports_errors_to_the_sink() {
    let mut g = rt_hub(true);
    let (p, _) = g.device_create_ray_tracing_pipeline(0, &descriptor(Some(0)), None, None, 0, vec![], None, vec![], sbt());
    let handle = RayTracingPipelineHandle { inner: DispatchRayTracingPipeline::Core { id: p } };
    let mut sink = Vec::new();
    let ok = handle.get_bind_group_layout(&mut g, &mut sink, 0);
    assert_eq!(ok, Some(BindGroupLayoutHandle { inner: DispatchBindGroupLayout::Core { id: 2 } }));
    assert!(sink.is_empty());
    assert_eq!(g.bind_group_layouts.slots[2].resource, Some(bgl(11)));
    let bad = handle.get_bind_group_layout(&mut g, &mut sink, 9);
    assert_eq!(bad, Some(BindGroupLayoutHandle { inner: DispatchBindGroupLayout::Core { id: 3 } }));
    assert_eq!(sink, vec![GetBindGroupLayoutError::InvalidGroupIndex(9)]);
}

#[test]
fn handle_as_custom() {
    let core = RayTracingPipelineHandle { inner: DispatchRayTracingPipeline::Core { id: 4 } };
    let custom = RayTracingPipelineHandle { inner: DispatchRayTracingPipeline::Custom { handle: 17 } };
    assert_eq!(core.as_custom(), None);
    assert_eq!(custom.as_custom(), Some(17));
}

#[test]
fn handle_of_a_custom_pipeline_has_no_core_layout() {
    let mut g = rt_hub(true);
    let custom = RayTracingPipelineHandle { inner: DispatchRayTracingPipeline::Custom { handle: 17 } };
    let mut sink = Vec::new();
    assert_eq!(custom.get_bind_group_layout(&mut g, &mut sink, 0), None);
    assert_eq!(g.bind_group_layouts.slots.len(), 2);
    assert!(sink.is_empty());
}

#[test]
fn named_entry_point_must_exist_in_the_interface() {
    let mut g = rt_hub(true);
    let mut desc = descriptor(Some(0));
    desc.ray_generation_stage = stage(0, Some("nope"));
    let (id, err) = g.device_create_ray_tracing_pipeline(0, &desc, None, None, 0, vec![], None, vec![], sbt());
    assert_eq!(
        err,
        Some(CreateRayTracingPipelineError::Stage {
            stage: SHADER_STAGE_RAY_GENERATION,
            error: StageError::MissingEntryPoint("nope".to_string()),
        })
    );
    assert!(g.ray_tracing_pipelines.slots[id].resource.is_none());
    let mut desc = descriptor(Some(0));
    desc.ray_miss_stage = stage(0, Some("gen"));
    let (_, err) = g.device_create_ray_tracing_pipeline(0, &desc, None, None, 0, vec![], None, vec![], sbt());
    assert_eq!(
        err,
        Some(CreateRayTracingPipelineError::Stage {
            stage: SHADER_STAGE_MISS,
            error: StageError::MissingEntryPoint("gen".to_string()),
        })
    );
}

#[test]
fn hit_group_entry_points_are_selected_before_names_are_checked() {
    let mut g = rt_hub(true);
    let mut desc = descriptor(Some(0));
    desc.ray_hit_groups = vec![
        hit_group(stage(0, Some("missing")), None),
        hit_group(stage(1, None), None),
    ];
    let (_, err) = g.device_create_ray_tracing_pipeline(0, &desc, None, None, 0, vec![], None, vec![], sbt());
    assert_eq!(
        err,
        Some(CreateRayTracingPipelineError::Stage {
            stage: SHADER_STAGE_CLOSEST_HIT,
            error: StageError::MultipleEntryPointsFound,
        })
    );
    desc.ray_hit_groups = vec![hit_group(stage(0, None), Some(stage(0, Some("hit"))))];
    let (_, err) = g.device_create_ray_tracing_pipeline(0, &desc, None, None, 0, vec![], None, vec![], sbt());
    assert_eq!(
        err,
        Some(CreateRayTracingPipelineError::Stage {
            stage: SHADER_STAGE_ANY_HIT,
            error: StageError::MissingEntryPoint("hit".to_string()),
        })
    );
}

#[test]
fn zero_recursion_depth_is_refused() {
    let mut g = rt_hub(true);
    let mut desc = descriptor(Some(0));
    desc.max_recursion_depth = 0;
    let (id, err) = g.device_create_ray_tracing_pipeline(0, &desc, None, None, 0, vec![], None, vec![], sbt());
    assert_eq!(err, Some(CreateRayTracingPipelineError::ZeroMaxRecursionDepth));
    assert!(g.ray_tracing_pipelines.slots[id].resource.is_none());
}

#[test]
fn pipeline_keeps_its_label_and_modules() {
    let mut g = rt_hub(true);
    let mut desc = descriptor(Some(0));
    desc.label = Some("rt".to_string());
    desc.ray_hit_groups.push(hit_group(stage(1, Some("hit_a")), None));
    let (id, err) = g.device_create_ray_tracing_pipeline(0, &desc, None, None, 0, vec![], None, vec![], sbt());
    assert_eq!(err, None);
    let p = created(&g, id);
    assert_eq!(p.label, Some("rt".to_string()));
    assert_eq!(p.shader_modules, vec![0, 0, 0, 0, 1]);
    assert_eq!(p.shader_binding_data, sbt());
}

#[test]
fn pipeline_is_registered_under_the_chosen_id() {
    let mut g = rt_hub(true);
    let (id, err) = g.device_create_ray_tracing_pipeline(0, &descriptor(Some(0)), Some(2), None, 0, vec![], None, vec![], sbt());
    assert_eq!((id, err), (2, None));
    assert_eq!(g.ray_tracing_pipelines.slots.len(), 3);
    assert!(!g.ray_tracing_pipelines.slots[0].registered);
    assert!(g.ray_tracing_pipelines.slots[1].resource.is_none());
    assert_eq!(created(&g, 2).layout, 0);
    let mut invalid = descriptor(Some(0));
    invalid.max_recursion_depth = 0;
    let (id, err) = g.device_create_ray_tracing_pipeline(0, &invalid, Some(0), None, 0, vec![], None, vec![], sbt());
    assert_eq!((id, err), (0, Some(CreateRayTracingPipelineError::ZeroMaxRecursionDepth)));
    assert!(g.ray_tracing_pipelines.slots[0].registered);
    assert!(g.ray_tracing_pipelines.slots[0].resource.is_none());
}

#[test]
fn derived_layout_becomes_exclusive_and_implicit_ids_are_registered() {
    let mut g = rt_hub(true);
    let ids = ImplicitPipelineIds { root_id: 4, group_ids: vec![2, 3, 5, 6] };
    let (id, err) = g.device_create_ray_tracing_pipeline(0, &descriptor(None), Some(1), Some(ids), 1, vec![], None, vec![], sbt());
    assert_eq!((id, err), (1, None));
    let mine = Some(ExclusivePipeline::RayTracing(1));
    assert_eq!(g.bind_group_layouts.slots[0].resource.unwrap().exclusive_pipeline, mine);
    assert_eq!(g.bind_group_layouts.slots[1].resource.unwrap().exclusive_pipeline, mine);
    let root = g.pipeline_layouts.slots[4].resource.as_ref().unwrap();
    assert_eq!(root.bind_group_layouts, vec![0, 1, 0]);
    assert!(g.pipeline_layouts.slots[3].resource.is_none() && !g.pipeline_layouts.slots[3].registered);
    let expected = [Some(11), Some(22), Some(11), None];
    for (k, id) in [2usize, 3, 5, 6].iter().enumerate() {
        assert!(g.bind_group_layouts.slots[*id].registered);
        assert_eq!(g.bind_group_layouts.slots[*id].resource.map(|b| b.handle), expected[k]);
        if expected[k].is_some() {
            assert_eq!(g.bind_group_layouts.slots[*id].resource.unwrap().exclusive_pipeline, mine);
        }
    }
    assert!(!g.bind_group_layouts.slots[4].registered);
}

#[test]
fn a_pipeline_with_its_own_layout_leaves_layouts_shared() {
    let mut g = rt_hub(true);
    let (_, err) = g.device_create_ray_tracing_pipeline(0, &descriptor(Some(0)), None, None, 1, vec![], None, vec![], sbt());
    assert_eq!(err, None);
    assert_eq!(g.bind_group_layouts.slots[0].resource.unwrap().exclusive_pipeline, None);
}

#[test]
fn implicit_ids_are_invalid_after_an_error() {
    let mut g = rt_hub(true);
    let ids = ImplicitPipelineIds { root_id: 3, group_ids: vec![2, 3] };
    let (_, err) = g.device_create_ray_tracing_pipeline(0, &descriptor(None), Some(0), Some(ids), 1, vec![], None, vec![], sbt());
    assert_eq!(err, Some(CreateRayTracingPipelineError::Implicit(ImplicitLayoutError::MissingIds(3))));
    assert!(g.pipeline_layouts.slots[3].registered && g.pipeline_layouts.slots[3].resource.is_none());
    assert!(g.bind_group_layouts.slots[2].registered && g.bind_group_layouts.slots[2].resource.is_none());
    assert!(g.bind_group_layouts.slots[3].registered && g.bind_group_layouts.slots[3].resource.is_none());
    // The device created the pipeline before the ids were found missing.
    assert_eq!(g.bind_group_layouts.slots[0].resource.unwrap().exclusive_pipeline, Some(ExclusivePipeline::RayTracing(0)));
}

fn mismatch(what: &str) -> Option<StageError> {
    Some(StageError::InterfaceMismatch(what.to_string()))
}

#[test]
fn a_layout_that_does_not_match_a_stage_is_refused() {
    let mut g = rt_hub(true);
    let desc = descriptor(Some(0));
    let checks = vec![None, mismatch("miss binding")];
    let (id, err) = g.device_create_ray_tracing_pipeline(0, &desc, None, None, 0, checks, None, vec![], sbt());
    assert_eq!(
        err,
        Some(CreateRayTracingPipelineError::Stage {
            stage: SHADER_STAGE_MISS,
            error: StageError::InterfaceMismatch("miss binding".to_string()),
        })
    );
    assert!(g.ray_tracing_pipelines.slots[id].resource.is_none());
}

#[test]
fn stage_checks_follow_the_stage_order() {
    let mut g = rt_hub(true);
    let mut desc = descriptor(Some(0));
    desc.ray_hit_groups.push(hit_group(stage(0, None), None));
    // Stages: ray generation, miss, closest hit 0, any hit 0, closest hit 1.
    let checks = vec![None, None, None, mismatch("any"), mismatch("second closest")];
    let (_, err) = g.device_create_ray_tracing_pipeline(0, &desc, None, None, 0, checks, None, vec![], sbt());
    assert_eq!(
        err,
        Some(CreateRayTracingPipelineError::Stage {
            stage: SHADER_STAGE_ANY_HIT,
            error: StageError::InterfaceMismatch("any".to_string()),
        })
    );
    let checks = vec![None, None, None, None, mismatch("second closest")];
    let (_, err) = g.device_create_ray_tracing_pipeline(0, &desc, None, None, 0, checks, None, vec![], sbt());
    assert_eq!(
        err,
        Some(CreateRayTracingPipelineError::Stage {
            stage: SHADER_STAGE_CLOSEST_HIT,
            error: StageError::InterfaceMismatch("second closest".to_string()),
        })
    );
}

#[test]
fn a_named_entry_point_is_looked_up_before_the_bindings() {
    let mut g = rt_hub(true);
    let mut desc = descriptor(Some(0));
    desc.ray_generation_stage = stage(0, Some("nope"));
    let (_, err) = g.device_create_ray_tracing_pipeline(0, &desc, None, None, 0, vec![mismatch("gen")], None, vec![], sbt());
    assert_eq!(
        err,
        Some(CreateRayTracingPipelineError::Stage {
            stage: SHADER_STAGE_RAY_GENERATION,
            error: StageError::MissingEntryPoint("nope".to_string()),
        })
    );
    // Entry points of every hit group are selected before any hit group's
    // bindings are checked.
    let mut desc = descriptor(Some(0));
    desc.ray_hit_groups.push(hit_group(stage(1, None), None));
    let checks = vec![None, None, mismatch("first group")];
    let (_, err) = g.device_create_ray_tracing_pipeline(0, &desc, None, None, 0, checks, None, vec![], sbt());
    assert_eq!(
        err,
        Some(CreateRayTracingPipelineError::Stage {
            stage: SHADER_STAGE_CLOSEST_HIT,
            error: StageError::MultipleEntryPointsFound,
        })
    );
}

#[test]
fn bind_group_layout_under_the_chosen_id() {
    let mut g = rt_hub(true);
    let (p, _) = g.device_create_ray_tracing_pipeline(0, &descriptor(Some(0)), None, None, 0, vec![], None, vec![], sbt());
    let (id, err) = g.ray_tracing_pipeline_get_bind_group_layout(p, 0, Some(4));
    assert_eq!((id, err), (4, None));
    assert_eq!(g.bind_group_layouts.slots.len(), 5);
    assert_eq!(g.bind_group_layouts.slots[4].resource, Some(bgl(11)));
    assert!(!g.bind_group_layouts.slots[3].registered);
}

#[test]
fn a_backend_failure_is_reported_after_the_checks() {
    let mut g = rt_hub(true);
    let ids = ImplicitPipelineIds { root_id: 3, group_ids: vec![2, 3, 4] };
    let (id, err) = g.device_create_ray_tracing_pipeline(
        0,
        &descriptor(None),
        Some(0),
        Some(ids),
        1,
        vec![],
        Some(DeviceError::OutOfMemory),
        vec![],
        sbt(),
    );
    assert_eq!(err, Some(CreateRayTracingPipelineError::Device(DeviceError::OutOfMemory)));
    assert!(g.ray_tracing_pipelines.slots[id].resource.is_none());
    assert!(g.pipeline_layouts.slots[3].registered && g.pipeline_layouts.slots[3].resource.is_none());
    assert_eq!(g.bind_group_layouts.slots[0].resource.unwrap().exclusive_pipeline, None);
    let mut desc = descriptor(Some(0));
    desc.max_recursion_depth = 0;
    let (_, err) = g.device_create_ray_tracing_pipeline(0, &desc, None, None, 0, vec![], Some(DeviceError::Lost), vec![], sbt());
    assert_eq!(err, Some(CreateRayTracingPipelineError::ZeroMaxRecursionDepth));
}
