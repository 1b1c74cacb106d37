use wgpu_core::acceleration_structure::{
    AsAction, AsBuild, Blas, BlasBuildEntry, BlasCompactState, BlasGeometries, BlasTriangleGeometry,
    BlasTriangleGeometrySizeDescriptor, BuildAccelerationStructureError, IndexFormat, ResourceIdent, Tlas, TlasBuild,
    TlasInstance, TlasPackage, ValidateAsActionsError, VertexFormat, AS_FLAG_ALLOW_COMPACTION, AS_FLAG_USE_TRANSFORM,
};
use wgpu_core::as_build::plan_acceleration_structure_build;
use wgpu_core::as_create::{
    AccelerationStructureBuildSizes, AccelerationStructureUpdateMode, BlasDescriptor, BlasPrepareCompactError, CreateBlasError,
    CreateTlasError,
    TlasDescriptor,
};
use wgpu_core::global::{CommandBuffer, Global};
use wgpu_core::pass::{CommandEncoderError, DeviceError, EncoderStateError, EncoderStatus, MissingFeature};
use wgpu_core::raw::RawCommand;
use wgpu_core::resource::{
    Buffer, Device, Features, InvalidResourceError, Limits, Registry, ResourceKind, Slot, BUFFER_USAGE_BLAS_INPUT,
};

fn as_device() -> Device {
    Device {
        valid: true,
        features: Features {
            timestamp_query: false,
            timestamp_query_inside_passes: false,
            ray_query: true,
            ray_tracing_acceleration_structure: true,
            ray_hit_vertex_return: false,
            ray_tracing_pipelines: false,
            extended_acceleration_structure_vertex_formats: false,
        },
        limits: Limits {
            max_bind_groups: 4,
            max_compute_workgroups_per_dimension: 65535,
            max_compute_workgroup_size_x: 256,
            max_compute_workgroup_size_y: 256,
            max_compute_workgroup_size_z: 64,
        },
        indirect_execution: true,
        indirect_validation: false,
        ray_tracing_scratch_buffer_alignment: 256,
        raw_tlas_instance_size: 64,
    }
}

fn present<T>(t: T) -> Slot<T> {
    Slot { resource: Some(t), registered: true }
}

fn triangle_size() -> BlasTriangleGeometrySizeDescriptor {
    BlasTriangleGeometrySizeDescriptor {
        vertex_format: VertexFormat::Float32x3,
        vertex_count: 3,
        index_format: None,
        index_count: None,
        flags: 0,
    }
}

fn blas(flags: u8, handle: u64, scratch: u64) -> Blas {
    Blas {
        device: 0,
        sizes: vec![triangle_size()],
        flags,
        handle,
        build_scratch_size: scratch,
        built_index: None,
        compacted_state: BlasCompactState::Idle,
        destroyed: false,
        label: None,
        update_mode: AccelerationStructureUpdateMode::Build,
        compaction_buffer_size: None,
    }
}

fn tlas(max: u32) -> Tlas {
    Tlas {
        device: 0,
        flags: 0,
        build_scratch_size: 10,
        max_instance_count: max,
        built_index: None,
        dependencies: vec![],
        destroyed: false,
        label: None,
        update_mode: AccelerationStructureUpdateMode::Build,
        instance_buffer_size: 64 * max as u64,
    }
}

/// BLASes 0 (scratch 100) and 1 (compactable, scratch 300), an invalid
/// BLAS 2, a TLAS 0 for two instances, a vertex buffer 0 of 36 bytes and a
/// buffer 1 without the BLAS input usage.
fn as_hub() -> Global {
    Global {
        devices: vec![as_device()],
        command_buffers: vec![CommandBuffer {
            device: 0,
            status: EncoderStatus::Recording,
            commands: vec![],
            as_actions: vec![],
        }],
        buffers: Registry {
            slots: vec![
                present(Buffer { device: 0, size: 36, usage: BUFFER_USAGE_BLAS_INPUT, destroyed: false }),
                present(Buffer { device: 0, size: 36, usage: 0, destroyed: false }),
            ],
        },
        query_sets: Registry { slots: vec![] },
        bind_group_layouts: Registry { slots: vec![] },
        bind_groups: Registry { slots: vec![] },
        pipeline_layouts: Registry { slots: vec![] },
        compute_pipelines: Registry { slots: vec![] },
        ray_tracing_pipelines: Registry { slots: vec![] },
        shader_modules: Registry { slots: vec![] },
        pipeline_caches: Registry { slots: vec![] },
        blas_s: Registry {
            slots: vec![
                present(blas(0, 0x1000, 100)),
                present(blas(AS_FLAG_ALLOW_COMPACTION, 0x2000, 300)),
                Slot { resource: None, registered: true },
            ],
        },
        tlas_s: Registry { slots: vec![present(tlas(2))] },
    }
}

fn geometry(stride: u64) -> BlasTriangleGeometry {
    BlasTriangleGeometry {
        size: triangle_size(),
        vertex_buffer: 0,
        index_buffer: None,
        transform_buffer: None,
        first_vertex: 0,
        vertex_stride: stride,
        first_index: None,
        transform_buffer_offset: None,
    }
}

fn entry(blas_id: usize, geometries: Vec<BlasTriangleGeometry>) -> BlasBuildEntry {
    BlasBuildEntry { blas_id, geometries: BlasGeometries::TriangleGeometries(geometries) }
}

fn instance(blas_id: usize, custom_data: u32) -> Option<TlasInstance> {
    Some(TlasInstance { blas_id, transform: [0; 12], custom_data, mask: 0xff, ray_hit_group_index: None })
}

fn package(instances: Vec<Option<TlasInstance>>) -> TlasPackage {
    TlasPackage { tlas_id: 0, instances, lowest_unmodified: 0, linked_pipeline: None }
}

fn plan_error(g: &Global, entries: Vec<BlasBuildEntry>, packages: Vec<TlasPackage>) -> BuildAccelerationStructureError {
    match plan_acceleration_structure_build(g, 0, &entries, &packages) {
        Err(e) => e,
        Ok(_) => panic!("the build was expected to fail"),
    }
}

#[test]
fn a_build_records_aligned_scratch_offsets_and_instances() {
    let mut g = as_hub();
    let entries = vec![entry(0, vec![geometry(12)]), entry(1, vec![geometry(12)])];
    let packages = vec![package(vec![instance(0, 5), None])];
    assert_eq!(g.command_encoder_build_acceleration_structures(0, &entries, &packages), Ok(()));
    let cb = &g.command_buffers[0];
    assert_eq!(cb.status, EncoderStatus::Recording);
    assert_eq!(
        cb.commands,
        vec![
            RawCommand::BuildBlas { blas: 0, scratch_offset: 0, geometry_count: 1 },
            RawCommand::BlasTriangles { blas: 0, geometry: geometry(12), index_offset: 0 },
            RawCommand::BuildBlas { blas: 1, scratch_offset: 256, geometry_count: 1 },
            RawCommand::BlasTriangles { blas: 1, geometry: geometry(12), index_offset: 0 },
            RawCommand::ReadBlasCompactSize { blas: 1 },
            RawCommand::WriteTlasInstance {
                tlas: 0,
                transform: [0; 12],
                custom_data: 5,
                mask: 0xff,
                blas_address: 0x1000,
                shader_binding_table_offset: 0,
            },
            RawCommand::BuildTlas { tlas: 0, scratch_offset: 0, instance_count: 1 },
        ]
    );
    assert_eq!(
        cb.as_actions,
        vec![AsAction::Build(AsBuild {
            blas_s_built: vec![0, 1],
            tlas_s_built: vec![TlasBuild { tlas: 0, dependencies: vec![0] }],
        })]
    );
}

#[test]
fn a_build_without_scratch_space_records_nothing() {
    let mut g = as_hub();
    let entries = vec![entry(0, vec![])];
    assert_eq!(g.command_encoder_build_acceleration_structures(0, &entries, &vec![]), Ok(()));
    assert!(g.command_buffers[0].commands.is_empty());
    assert!(g.command_buffers[0].as_actions.is_empty());
    assert_eq!(g.command_buffers[0].status, EncoderStatus::Recording);
}

#[test]
fn a_failed_build_invalidates_the_encoder() {
    let mut g = as_hub();
    let entries = vec![entry(2, vec![geometry(12)])];
    assert_eq!(g.command_encoder_build_acceleration_structures(0, &entries, &vec![]), Ok(()));
    assert_eq!(
        g.command_buffers[0].status,
        EncoderStatus::Error(CommandEncoderError::BuildAccelerationStructure(
            BuildAccelerationStructureError::InvalidResource(InvalidResourceError { kind: ResourceKind::Blas, id: 2 })
        ))
    );
    assert!(g.command_buffers[0].as_actions.is_empty());
}

#[test]
fn building_into_a_locked_encoder_fails_and_invalidates_it() {
    let mut g = as_hub();
    g.command_buffers[0].status = EncoderStatus::Locked;
    assert_eq!(
        g.command_encoder_build_acceleration_structures(0, &vec![], &vec![]),
        Err(EncoderStateError::Locked)
    );
    assert_eq!(g.command_buffers[0].status, EncoderStatus::Error(CommandEncoderError::State(EncoderStateError::Locked)));
}

#[test]
fn build_errors_for_the_blas_sizes() {
    let g = as_hub();
    assert_eq!(
        plan_error(&g, vec![entry(2, vec![geometry(12)])], vec![]),
        BuildAccelerationStructureError::InvalidResource(InvalidResourceError { kind: ResourceKind::Blas, id: 2 })
    );
    assert_eq!(
        plan_error(&g, vec![entry(0, vec![geometry(12), geometry(12)])], vec![]),
        BuildAccelerationStructureError::IncompatibleBlasBuildSizes { blas: 0 }
    );
    let mut flagged = geometry(12);
    flagged.size.flags = 1;
    assert_eq!(
        plan_error(&g, vec![entry(0, vec![flagged])], vec![]),
        BuildAccelerationStructureError::IncompatibleBlasFlags { blas: 0, expected: 0, provided: 1 }
    );
    let mut many = geometry(12);
    many.size.vertex_count = 4;
    assert_eq!(
        plan_error(&g, vec![entry(0, vec![many])], vec![]),
        BuildAccelerationStructureError::IncompatibleBlasVertexCount { blas: 0, expected: 3, provided: 4 }
    );
    let mut other_format = geometry(12);
    other_format.size.vertex_format = VertexFormat::Float32x2;
    assert_eq!(
        plan_error(&g, vec![entry(0, vec![other_format])], vec![]),
        BuildAccelerationStructureError::DifferentBlasVertexFormats {
            blas: 0,
            expected: VertexFormat::Float32x3,
            provided: VertexFormat::Float32x2,
        }
    );
    assert_eq!(
        plan_error(&g, vec![entry(0, vec![geometry(8)])], vec![]),
        BuildAccelerationStructureError::VertexStrideTooSmall { blas: 0, min: 12, provided: 8 }
    );
    assert_eq!(
        plan_error(&g, vec![entry(0, vec![geometry(14)])], vec![]),
        BuildAccelerationStructureError::VertexStrideUnaligned { blas: 0, alignment: 4, provided: 14 }
    );
    let mut indexed = geometry(12);
    indexed.size.index_count = Some(3);
    indexed.size.index_format = Some(IndexFormat::Uint16);
    assert_eq!(
        plan_error(&g, vec![entry(0, vec![indexed])], vec![]),
        BuildAccelerationStructureError::BlasIndexCountProvidedMismatch { blas: 0 }
    );
    let mut transformed = geometry(12);
    transformed.transform_buffer = Some(0);
    transformed.transform_buffer_offset = Some(0);
    assert_eq!(
        plan_error(&g, vec![entry(0, vec![transformed])], vec![]),
        BuildAccelerationStructureError::UseTransformMissing { blas: 0 }
    );
}

#[test]
fn build_errors_for_the_buffers() {
    let g = as_hub();
    let mut no_usage = geometry(12);
    no_usage.vertex_buffer = 1;
    assert_eq!(
        plan_error(&g, vec![entry(0, vec![no_usage])], vec![]),
        BuildAccelerationStructureError::MissingBufferUsage { buffer: 1, actual: 0, expected: BUFFER_USAGE_BLAS_INPUT }
    );
    assert_eq!(
        plan_error(&g, vec![entry(0, vec![geometry(16)])], vec![]),
        BuildAccelerationStructureError::InsufficientBufferSize { buffer: 0, size: 36, required: 48 }
    );
    let mut g2 = as_hub();
    g2.buffers.slots[0] = present(Buffer { device: 0, size: 36, usage: BUFFER_USAGE_BLAS_INPUT, destroyed: true });
    assert_eq!(
        plan_error(&g2, vec![entry(0, vec![geometry(12)])], vec![]),
        BuildAccelerationStructureError::DestroyedResource { kind: ResourceKind::Buffer, id: 0 }
    );
}

#[test]
fn a_geometry_with_a_transform_needs_an_aligned_offset() {
    let mut g = as_hub();
    g.blas_s.slots[0] = present(blas(AS_FLAG_USE_TRANSFORM, 0x1000, 100));
    g.buffers.slots.push(present(Buffer { device: 0, size: 64, usage: BUFFER_USAGE_BLAS_INPUT, destroyed: false }));
    let mut transformed = geometry(12);
    transformed.transform_buffer = Some(2);
    transformed.transform_buffer_offset = Some(8);
    assert_eq!(
        plan_error(&g, vec![entry(0, vec![transformed])], vec![]),
        BuildAccelerationStructureError::UnalignedTransformBufferOffset { buffer: 2 }
    );
    transformed.transform_buffer_offset = Some(32);
    assert_eq!(
        plan_error(&g, vec![entry(0, vec![transformed])], vec![]),
        BuildAccelerationStructureError::InsufficientBufferSize { buffer: 2, size: 64, required: 80 }
    );
    assert_eq!(
        plan_error(&g, vec![entry(0, vec![geometry(12)])], vec![]),
        BuildAccelerationStructureError::TransformMissing { blas: 0 }
    );
}

#[test]
fn build_errors_for_the_instances() {
    let g = as_hub();
    assert_eq!(
        plan_error(&g, vec![], vec![package(vec![instance(0, 1 << 24)])]),
        BuildAccelerationStructureError::TlasInvalidCustomIndex { tlas: 0 }
    );
    let mut with_hit_group = instance(0, 0);
    with_hit_group.as_mut().unwrap().ray_hit_group_index = Some(0);
    assert_eq!(
        plan_error(&g, vec![], vec![package(vec![with_hit_group])]),
        BuildAccelerationStructureError::TlasLinkedPipelineInstanceHitGroupIndexMismatch { tlas: 0 }
    );
    assert_eq!(
        plan_error(&g, vec![], vec![package(vec![instance(2, 0)])]),
        BuildAccelerationStructureError::InvalidResource(InvalidResourceError { kind: ResourceKind::Blas, id: 2 })
    );
    assert_eq!(
        plan_error(&g, vec![], vec![package(vec![instance(0, 0), None, instance(0, 1), instance(1, 2)])]),
        BuildAccelerationStructureError::TlasInstanceCountExceeded { tlas: 0, count: 3, max: 2 }
    );
}

#[test]
fn destroyed_and_compacted_structures_are_found_last() {
    let mut g = as_hub();
    g.tlas_s.slots[0].resource.as_mut().unwrap().destroyed = true;
    assert_eq!(
        plan_error(&g, vec![], vec![package(vec![])]),
        BuildAccelerationStructureError::DestroyedResource { kind: ResourceKind::Tlas, id: 0 }
    );
    let mut g = as_hub();
    g.blas_s.slots[1].resource.as_mut().unwrap().compacted_state = BlasCompactState::Compacted;
    assert_eq!(
        plan_error(&g, vec![entry(1, vec![geometry(12)])], vec![]),
        BuildAccelerationStructureError::CompactedBlas { blas: 1 }
    );
}

#[test]
fn a_build_needs_the_acceleration_structure_feature() {
    let mut g = as_hub();
    g.devices[0].features.ray_tracing_acceleration_structure = false;
    assert_eq!(
        plan_error(&g, vec![entry(2, vec![])], vec![]),
        BuildAccelerationStructureError::MissingFeature(MissingFeature::RayTracingAccelerationStructure)
    );
}

#[test]
fn a_built_tlas_can_be_used_after_submission() {
    let mut g = as_hub();
    let entries = vec![entry(0, vec![geometry(12)])];
    let packages = vec![package(vec![instance(0, 0)])];
    g.command_encoder_build_acceleration_structures(0, &entries, &packages).unwrap();
    g.command_buffers[0].as_actions.push(AsAction::UseTlas(0));
    let mut next = 1u64;
    assert_eq!(g.validate_acceleration_structure_actions(0, &mut next), Ok(()));
    assert_eq!(next, 2);
    assert_eq!(g.blas_s.slots[0].resource.as_ref().unwrap().built_index, Some(1));
    let t = g.tlas_s.slots[0].resource.as_ref().unwrap();
    assert_eq!(t.built_index, Some(1));
    assert_eq!(t.dependencies, vec![0]);
}

#[test]
fn using_an_unbuilt_tlas_fails_at_submission() {
    let mut g = as_hub();
    g.command_buffers[0].as_actions.push(AsAction::UseTlas(0));
    let mut next = 1u64;
    assert_eq!(
        g.validate_acceleration_structure_actions(0, &mut next),
        Err(ValidateAsActionsError::UsedUnbuiltTlas { tlas: 0 })
    );
}

#[test]
fn a_tlas_build_needs_its_blas_built() {
    let mut g = as_hub();
    g.command_buffers[0].as_actions.push(AsAction::Build(AsBuild {
        blas_s_built: vec![],
        tlas_s_built: vec![TlasBuild { tlas: 0, dependencies: vec![1] }],
    }));
    let mut next = 5u64;
    assert_eq!(
        g.validate_acceleration_structure_actions(0, &mut next),
        Err(ValidateAsActionsError::UsedUnbuiltBlas(
            ResourceIdent { kind: ResourceKind::Blas, id: 1 },
            ResourceIdent { kind: ResourceKind::Tlas, id: 0 },
        ))
    );
    assert_eq!(next, 6);
}

#[test]
fn a_blas_rebuilt_after_its_tlas_makes_the_tlas_unusable() {
    let mut g = as_hub();
    g.command_buffers[0].as_actions = vec![
        AsAction::Build(AsBuild {
            blas_s_built: vec![0],
            tlas_s_built: vec![TlasBuild { tlas: 0, dependencies: vec![0] }],
        }),
        AsAction::Build(AsBuild { blas_s_built: vec![0], tlas_s_built: vec![] }),
        AsAction::UseTlas(0),
    ];
    let mut next = 1u64;
    assert_eq!(
        g.validate_acceleration_structure_actions(0, &mut next),
        Err(ValidateAsActionsError::BlasNewerThenTlas { blas: 0, tlas: 0 })
    );
    assert_eq!(next, 3);
    assert_eq!(g.blas_s.slots[0].resource.as_ref().unwrap().built_index, Some(2));
}

#[test]
fn a_destroyed_dependency_makes_the_tlas_unusable() {
    let mut g = as_hub();
    g.blas_s.slots[0].resource.as_mut().unwrap().destroyed = true;
    g.command_buffers[0].as_actions = vec![
        AsAction::Build(AsBuild {
            blas_s_built: vec![0],
            tlas_s_built: vec![TlasBuild { tlas: 0, dependencies: vec![0] }],
        }),
        AsAction::UseTlas(0),
    ];
    let mut next = 1u64;
    assert_eq!(
        g.validate_acceleration_structure_actions(0, &mut next),
        Err(ValidateAsActionsError::DestroyedResource { kind: ResourceKind::Blas, id: 0 })
    );
}

#[test]
fn a_build_resets_compaction() {
    let mut g = as_hub();
    g.blas_s.slots[1].resource.as_mut().unwrap().compacted_state = BlasCompactState::Ready { size: 64 };
    assert_eq!(g.ready_for_compaction(1), Ok(true));
    g.command_buffers[0].as_actions.push(AsAction::Build(AsBuild { blas_s_built: vec![1], tlas_s_built: vec![] }));
    let mut next = 9u64;
    g.validate_acceleration_structure_actions(0, &mut next).unwrap();
    assert_eq!(g.ready_for_compaction(1), Ok(false));
    assert_eq!(g.blas_s.slots[1].resource.as_ref().unwrap().built_index, Some(9));
}

#[test]
fn compaction_of_an_invalid_blas_cannot_be_queried() {
    let g = as_hub();
    assert_eq!(
        g.ready_for_compaction(2),
        Err(InvalidResourceError { kind: ResourceKind::Blas, id: 2 })
    );
}

#[test]
fn marking_structures_built_records_a_build_without_dependencies() {
    let mut g = as_hub();
    assert_eq!(g.command_encoder_mark_acceleration_structures_built(0, &[0, 1], &[0]), Ok(()));
    assert_eq!(
        g.command_buffers[0].as_actions,
        vec![AsAction::Build(AsBuild {
            blas_s_built: vec![0, 1],
            tlas_s_built: vec![TlasBuild { tlas: 0, dependencies: vec![] }],
        })]
    );
    let mut g = as_hub();
    assert_eq!(g.command_encoder_mark_acceleration_structures_built(0, &[2], &[]), Ok(()));
    assert_eq!(
        g.command_buffers[0].status,
        EncoderStatus::Error(CommandEncoderError::BuildAccelerationStructure(
            BuildAccelerationStructureError::InvalidResource(InvalidResourceError { kind: ResourceKind::Blas, id: 2 })
        ))
    );
    assert!(g.command_buffers[0].as_actions.is_empty());
}

fn blas_desc(flags: u8) -> BlasDescriptor {
    BlasDescriptor { label: None, flags, update_mode: AccelerationStructureUpdateMode::Build }
}

fn sizes() -> AccelerationStructureBuildSizes {
    AccelerationStructureBuildSizes { acceleration_structure_size: 1024, build_scratch_size: 512, update_scratch_size: 0 }
}

#[test]
fn creating_a_blas_registers_it_with_its_address() {
    let mut g = as_hub();
    let (id, handle, err) = g.device_create_blas(0, &blas_desc(0), vec![triangle_size()], sizes(), 0xabc, None, None);
    assert_eq!((id, handle, err), (3, Some(0xabc), None));
    let b = g.blas_s.slots[3].resource.as_ref().unwrap();
    assert_eq!(b.build_scratch_size, 512);
    assert_eq!(b.built_index, None);
}

#[test]
fn blas_creation_errors() {
    let mut g = as_hub();
    let mut unpaired = triangle_size();
    unpaired.index_count = Some(3);
    let (id, handle, err) = g.device_create_blas(0, &blas_desc(0), vec![unpaired], sizes(), 1, None, None);
    assert_eq!((id, handle, err), (3, None, Some(CreateBlasError::MissingIndexData)));
    assert!(g.blas_s.slots[3].resource.is_none());
    let mut odd = triangle_size();
    odd.vertex_format = VertexFormat::Float16x2;
    let (_, _, err) = g.device_create_blas(0, &blas_desc(0), vec![odd], sizes(), 1, None, None);
    assert_eq!(
        err,
        Some(CreateBlasError::InvalidVertexFormat(VertexFormat::Float16x2, vec![VertexFormat::Float32x3]))
    );
    let (_, _, err) = g.device_create_blas(0, &blas_desc(64), vec![triangle_size()], sizes(), 1, None, None);
    assert_eq!(err, Some(CreateBlasError::MissingFeature(MissingFeature::RayHitVertexReturn)));
    g.devices[0].valid = false;
    let (_, _, err) = g.device_create_blas(0, &blas_desc(0), vec![triangle_size()], sizes(), 1, None, None);
    assert_eq!(err, Some(CreateBlasError::Device(DeviceError::Invalid)));
}

#[test]
fn tlas_creation_refuses_the_transform_flag() {
    let mut g = as_hub();
    let desc = TlasDescriptor {
        label: None,
        max_instances: 4,
        flags: AS_FLAG_USE_TRANSFORM,
        update_mode: AccelerationStructureUpdateMode::Build,
    };
    let (id, err) = g.device_create_tlas(0, &desc, sizes(), None, None);
    assert_eq!((id, err), (1, Some(CreateTlasError::DisallowedFlag(AS_FLAG_USE_TRANSFORM))));
    let ok = TlasDescriptor { flags: 0, ..desc };
    let (id, err) = g.device_create_tlas(0, &ok, sizes(), None, None);
    assert_eq!((id, err), (2, None));
    assert_eq!(g.tlas_s.slots[2].resource.as_ref().unwrap().max_instance_count, 4);
}

#[test]
fn dropped_structures_stay_with_their_holders() {
    let mut g = as_hub();
    g.blas_drop(0);
    g.tlas_drop(0);
    assert!(!g.blas_s.slots[0].registered);
    assert!(g.blas_s.slots[0].resource.is_some());
    assert!(!g.tlas_s.slots[0].registered);
}

#[test]
fn blas_keeps_its_descriptor_and_takes_the_chosen_id() {
    let mut g = as_hub();
    let desc = BlasDescriptor {
        label: Some("geometry".to_string()),
        flags: AS_FLAG_ALLOW_COMPACTION,
        update_mode: AccelerationStructureUpdateMode::PreferUpdate,
    };
    let (id, handle, err) = g.device_create_blas(0, &desc, vec![triangle_size()], sizes(), 0x77, None, Some(5));
    assert_eq!((id, handle, err), (5, Some(0x77), None));
    assert_eq!(g.blas_s.slots.len(), 6);
    assert!(!g.blas_s.slots[3].registered && g.blas_s.slots[3].resource.is_none());
    assert!(!g.blas_s.slots[4].registered && g.blas_s.slots[4].resource.is_none());
    let b = g.blas_s.slots[5].resource.as_ref().unwrap();
    assert_eq!(b.label, Some("geometry".to_string()));
    assert_eq!(b.update_mode, AccelerationStructureUpdateMode::PreferUpdate);
    assert_eq!(b.compaction_buffer_size, Some(8));
    let (_, _, _) = g.device_create_blas(0, &blas_desc(0), vec![triangle_size()], sizes(), 0x78, None, None);
    assert_eq!(g.blas_s.slots[6].resource.as_ref().unwrap().compaction_buffer_size, None);
}

#[test]
fn tlas_gets_an_instance_buffer_for_its_instances() {
    let mut g = as_hub();
    let desc = TlasDescriptor {
        label: Some("scene".to_string()),
        max_instances: 10,
        flags: 0,
        update_mode: AccelerationStructureUpdateMode::Build,
    };
    let (id, err) = g.device_create_tlas(0, &desc, sizes(), None, Some(3));
    assert_eq!((id, err), (3, None));
    let t = g.tlas_s.slots[3].resource.as_ref().unwrap();
    assert_eq!(t.instance_buffer_size, 640);
    assert_eq!(t.label, Some("scene".to_string()));
    let empty = TlasDescriptor { max_instances: 0, label: None, ..desc };
    let (id, _) = g.device_create_tlas(0, &empty, sizes(), None, None);
    assert_eq!(g.tlas_s.slots[id].resource.as_ref().unwrap().instance_buffer_size, 64);
}

#[test]
fn an_indexed_geometry_is_handed_to_the_build_with_its_index_offset() {
    let mut g = as_hub();
    let indexed = BlasTriangleGeometrySizeDescriptor {
        vertex_format: VertexFormat::Float32x3,
        vertex_count: 3,
        index_format: Some(IndexFormat::Uint32),
        index_count: Some(3),
        flags: 0,
    };
    g.blas_s.slots[0].resource.as_mut().unwrap().sizes = vec![indexed];
    let mut m = geometry(12);
    m.size = indexed;
    m.index_buffer = Some(0);
    m.first_index = Some(2);
    let entries = vec![entry(0, vec![m])];
    assert_eq!(g.command_encoder_build_acceleration_structures(0, &entries, &vec![]), Ok(()));
    assert_eq!(
        g.command_buffers[0].commands[..2].to_vec(),
        vec![
            RawCommand::BuildBlas { blas: 0, scratch_offset: 0, geometry_count: 1 },
            RawCommand::BlasTriangles { blas: 0, geometry: m, index_offset: 8 },
        ]
    );
}

#[test]
fn preparing_a_compaction_needs_a_built_compactable_blas() {
    let mut g = as_hub();
    // BLAS 0 does not allow compaction, BLAS 1 does, BLAS 2 is invalid.
    g.blas_s.slots[0].resource.as_mut().unwrap().built_index = Some(1);
    assert_eq!(
        g.blas_prepare_compact_async(2, true, 9),
        (
            Err(BlasPrepareCompactError::InvalidResource(InvalidResourceError { kind: ResourceKind::Blas, id: 2 })),
            Some(BlasPrepareCompactError::InvalidResource(InvalidResourceError { kind: ResourceKind::Blas, id: 2 })),
        )
    );
    assert_eq!(g.blas_prepare_compact_async(1, false, 9), (Err(BlasPrepareCompactError::NotBuilt), None));
    assert_eq!(
        g.blas_prepare_compact_async(0, true, 9),
        (Err(BlasPrepareCompactError::CompactionUnsupported), Some(BlasPrepareCompactError::CompactionUnsupported))
    );
    g.blas_s.slots[1].resource.as_mut().unwrap().built_index = Some(1);
    assert_eq!(g.blas_prepare_compact_async(1, true, 9), (Ok(9), None));
    assert_eq!(g.blas_s.slots[1].resource.as_ref().unwrap().compacted_state, BlasCompactState::Waiting);
    assert_eq!(g.ready_for_compaction(1), Ok(false));
    assert_eq!(
        g.blas_prepare_compact_async(1, false, 10),
        (Err(BlasPrepareCompactError::CompactionPreparingAlready), None)
    );
    g.blas_s.slots[1].resource.as_mut().unwrap().compacted_state = BlasCompactState::Compacted;
    assert_eq!(g.blas_prepare_compact_async(1, false, 10), (Err(BlasPrepareCompactError::DoubleCompaction), None));
}

#[test]
fn backend_failures_of_structure_creation_are_reported() {
    let mut g = as_hub();
    let (id, handle, err) =
        g.device_create_blas(0, &blas_desc(0), vec![triangle_size()], sizes(), 1, Some(DeviceError::OutOfMemory), None);
    assert_eq!((handle, err), (None, Some(CreateBlasError::Device(DeviceError::OutOfMemory))));
    assert!(g.blas_s.slots[id].resource.is_none());
    let desc = TlasDescriptor { label: None, max_instances: 1, flags: 0, update_mode: AccelerationStructureUpdateMode::Build };
    let (id, err) = g.device_create_tlas(0, &desc, sizes(), Some(DeviceError::Lost), None);
    assert_eq!(err, Some(CreateTlasError::Device(DeviceError::Lost)));
    assert!(g.tlas_s.slots[id].resource.is_none());
}
