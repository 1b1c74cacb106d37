//! Building acceleration structures: the validation of a build request
//! against the BLASes, TLASes and buffers it names, the scratch space it
//! needs, and the commands it records.
//!
//! A build runs in phases, each of which checks every item before the next
//! phase starts: the BLAS entries and their geometries' sizes, then the
//! geometries' buffers, then the TLAS lookups, then the TLAS instances, then
//! (when there is scratch space to use) that no TLAS and no built BLAS has
//! been destroyed and no built BLAS has been compacted.

use vstd::prelude::*;
use crate::acceleration_structure::{
    AsBuild, Blas, BlasBuildEntry, BlasCompactState, BlasGeometries, BlasTriangleGeometry,
    BuildAccelerationStructureError, TlasBuild, TlasInstance, TlasPackage, first_err, first_err_at, reports, has_flag,
    AS_FLAG_ALLOW_COMPACTION, AS_FLAG_USE_TRANSFORM, AS_FLAG_ALLOW_RAY_HIT_VERTEX_RETURN,
    lemma_first_err_step, lemma_first_err_persists, lemma_first_err_at_step, lemma_first_err_at_persists,
    lemma_first_err_none, lemma_first_err_at_none,
};
use crate::global::Global;
use crate::pass::{CommandEncoderError, EncoderStateError, EncoderStatus, MissingFeature, record_check, record_check_spec};
use crate::acceleration_structure::AsAction;
use crate::raw::RawCommand;
use crate::replay::contains_bits;
use crate::resource::{InvalidResourceError, ResourceKind, BUFFER_USAGE_BLAS_INPUT};

verus! {

/// Required alignment, in bytes, of a transform buffer offset.
pub const TRANSFORM_BUFFER_ALIGNMENT: u64 = 16;
/// Size in bytes of a transform: a 3x4 matrix of `f32`.
pub const TRANSFORM_SIZE: u64 = 48;
/// Instance custom indices must be below this bound (24 bits).
pub const MAX_CUSTOM_DATA: u32 = 16777216;

/// `v` rounded up to a multiple of `a`.
pub open spec fn align_up(v: int, a: int) -> int {
    if v % a == 0 {
        v
    } else {
        v + (a - v % a)
    }
}

/// `wgpu_types::math::align_to` on `u32`: the first multiple of `alignment`
/// that is at least `value`.  It panics when there is none in `u32`, or when
/// `alignment` is zero; `requires` leaves those inputs out.
#[verifier::external_body]
fn align_to_u32(value: u32, alignment: u32) -> (r: u32)
    requires
        alignment > 0,
        align_up(value as int, alignment as int) <= u32::MAX,
    ensures
        r == align_up(value as int, alignment as int),
{
    wgpu_types::math::align_to(value, alignment)
}

/// A byte count truncated to `u32`, as the build reads scratch sizes.
pub open spec fn truncate_u32(v: u64) -> u32 {
    #[verifier::truncate]
    (v as u32)
}

/// The geometries of a BLAS entry.
pub open spec fn entry_geometries(e: BlasBuildEntry) -> Seq<BlasTriangleGeometry> {
    match e.geometries {
        BlasGeometries::TriangleGeometries(v) => v@,
    }
}

/// An invalid resource of kind `kind`.
pub open spec fn invalid(kind: ResourceKind, id: usize) -> BuildAccelerationStructureError {
    BuildAccelerationStructureError::InvalidResource(InvalidResourceError { kind, id })
}

/// The checks of geometry `i` of a build of BLAS `blas_id` (holding `blas`)
/// against the size the BLAS was created for, and the lookups of its buffers.
pub open spec fn geometry_size_error(
    g: Global,
    blas_id: usize,
    blas: Blas,
    i: int,
    m: BlasTriangleGeometry,
) -> Option<BuildAccelerationStructureError> {
    let sizes = blas.sizes@;
    if i >= sizes.len() {
        Some(BuildAccelerationStructureError::IncompatibleBlasBuildSizes { blas: blas_id })
    } else {
        let sd = sizes[i];
        if sd.flags != m.size.flags {
            Some(BuildAccelerationStructureError::IncompatibleBlasFlags { blas: blas_id, expected: sd.flags, provided: m.size.flags })
        } else if sd.vertex_count < m.size.vertex_count {
            Some(
                BuildAccelerationStructureError::IncompatibleBlasVertexCount {
                    blas: blas_id,
                    expected: sd.vertex_count,
                    provided: m.size.vertex_count,
                },
            )
        } else if sd.vertex_format != m.size.vertex_format {
            Some(
                BuildAccelerationStructureError::DifferentBlasVertexFormats {
                    blas: blas_id,
                    expected: sd.vertex_format,
                    provided: m.size.vertex_format,
                },
            )
        } else if sd.vertex_format.min_as_stride() > m.vertex_stride {
            Some(
                BuildAccelerationStructureError::VertexStrideTooSmall {
                    blas: blas_id,
                    min: sd.vertex_format.min_as_stride(),
                    provided: m.vertex_stride,
                },
            )
        } else if m.vertex_stride % sd.vertex_format.as_stride_alignment() != 0 {
            Some(
                BuildAccelerationStructureError::VertexStrideUnaligned {
                    blas: blas_id,
                    alignment: sd.vertex_format.as_stride_alignment(),
                    provided: m.vertex_stride,
                },
            )
        } else if (sd.index_count is Some) != (m.size.index_count is Some) {
            Some(BuildAccelerationStructureError::BlasIndexCountProvidedMismatch { blas: blas_id })
        } else if sd.index_count is Some && sd.index_count->0 < m.size.index_count->0 {
            Some(
                BuildAccelerationStructureError::IncompatibleBlasIndexCount {
                    blas: blas_id,
                    expected: sd.index_count->0,
                    provided: m.size.index_count->0,
                },
            )
        } else if sd.index_format != m.size.index_format {
            Some(
                BuildAccelerationStructureError::DifferentBlasIndexFormats {
                    blas: blas_id,
                    expected: sd.index_format,
                    provided: m.size.index_format,
                },
            )
        } else if sd.index_count is Some && m.index_buffer is None {
            Some(BuildAccelerationStructureError::MissingIndexBuffer { blas: blas_id })
        } else if !g.buffers.is_valid(m.vertex_buffer) {
            Some(invalid(ResourceKind::Buffer, m.vertex_buffer))
        } else if m.index_buffer is Some && !g.buffers.is_valid(m.index_buffer->0) {
            Some(invalid(ResourceKind::Buffer, m.index_buffer->0))
        } else if m.index_buffer is Some && (m.first_index is None || m.size.index_count is None) {
            Some(BuildAccelerationStructureError::MissingAssociatedData { buffer: m.index_buffer->0 })
        } else if m.transform_buffer is Some && !has_flag(blas.flags, AS_FLAG_USE_TRANSFORM) {
            Some(BuildAccelerationStructureError::UseTransformMissing { blas: blas_id })
        } else if m.transform_buffer is Some && !g.buffers.is_valid(m.transform_buffer->0) {
            Some(invalid(ResourceKind::Buffer, m.transform_buffer->0))
        } else if m.transform_buffer is Some && m.transform_buffer_offset is None {
            Some(BuildAccelerationStructureError::MissingAssociatedData { buffer: m.transform_buffer->0 })
        } else if m.transform_buffer is None && has_flag(blas.flags, AS_FLAG_USE_TRANSFORM) {
            Some(BuildAccelerationStructureError::TransformMissing { blas: blas_id })
        } else {
            None
        }
    }
}

/// `geometry_size_error` for the geometries of a build of BLAS `blas_id`.
pub open spec fn geometry_size_check(g: Global, blas_id: usize) -> spec_fn(int, BlasTriangleGeometry) -> Option<
    BuildAccelerationStructureError,
> {
    |i: int, m: BlasTriangleGeometry| geometry_size_error(g, blas_id, g.blas_s.data(blas_id), i, m)
}

/// The first check that a BLAS entry fails: the BLAS must be valid, then
/// each of its geometries is checked in order.
pub open spec fn blas_entry_error(g: Global, e: BlasBuildEntry) -> Option<BuildAccelerationStructureError> {
    if !g.blas_s.is_valid(e.blas_id) {
        Some(invalid(ResourceKind::Blas, e.blas_id))
    } else {
        first_err_at(entry_geometries(e), geometry_size_check(g, e.blas_id))
    }
}

/// `blas_entry_error` as a check of entries.
pub open spec fn blas_entry_check(g: Global) -> spec_fn(BlasBuildEntry) -> Option<BuildAccelerationStructureError> {
    |e: BlasBuildEntry| blas_entry_error(g, e)
}

/// The number of bytes of the vertex buffer that a geometry reads.
pub open spec fn vertex_bytes_needed(m: BlasTriangleGeometry) -> int {
    (m.size.vertex_count + m.first_vertex) * m.vertex_stride
}

/// The number of bytes of the index buffer that a geometry reads.
pub open spec fn index_bytes_needed(m: BlasTriangleGeometry) -> int {
    let stride = m.size.index_format->0.size();
    m.size.index_count->0 * stride + m.first_index->0 * stride
}

/// The checks of a geometry's vertex buffer.
pub open spec fn vertex_buffer_error(g: Global, m: BlasTriangleGeometry) -> Option<BuildAccelerationStructureError> {
    let b = g.buffers.data(m.vertex_buffer);
    if b.destroyed {
        Some(BuildAccelerationStructureError::DestroyedResource { kind: ResourceKind::Buffer, id: m.vertex_buffer })
    } else if !contains_bits(b.usage, BUFFER_USAGE_BLAS_INPUT) {
        Some(
            BuildAccelerationStructureError::MissingBufferUsage {
                buffer: m.vertex_buffer,
                actual: b.usage,
                expected: BUFFER_USAGE_BLAS_INPUT,
            },
        )
    } else if b.size < vertex_bytes_needed(m) {
        Some(
            BuildAccelerationStructureError::InsufficientBufferSize {
                buffer: m.vertex_buffer,
                size: b.size,
                required: vertex_bytes_needed(m) as u64,
            },
        )
    } else {
        None
    }
}

/// The checks of a geometry's index buffer, if it has one.
pub open spec fn index_buffer_error(g: Global, m: BlasTriangleGeometry) -> Option<BuildAccelerationStructureError> {
    match m.index_buffer {
        None => None,
        Some(id) => {
            let b = g.buffers.data(id);
            if b.destroyed {
                Some(BuildAccelerationStructureError::DestroyedResource { kind: ResourceKind::Buffer, id })
            } else if !contains_bits(b.usage, BUFFER_USAGE_BLAS_INPUT) {
                Some(BuildAccelerationStructureError::MissingBufferUsage { buffer: id, actual: b.usage, expected: BUFFER_USAGE_BLAS_INPUT })
            } else if m.size.index_count->0 % 3 != 0 {
                Some(BuildAccelerationStructureError::InvalidIndexCount { buffer: id, count: m.size.index_count->0 })
            } else if b.size < index_bytes_needed(m) {
                Some(
                    BuildAccelerationStructureError::InsufficientBufferSize {
                        buffer: id,
                        size: b.size,
                        required: index_bytes_needed(m) as u64,
                    },
                )
            } else {
                None
            }
        },
    }
}

/// The checks of a geometry's transform buffer, if it has one.
pub open spec fn transform_buffer_error(g: Global, m: BlasTriangleGeometry) -> Option<BuildAccelerationStructureError> {
    match m.transform_buffer {
        None => None,
        Some(id) => {
            let b = g.buffers.data(id);
            if m.transform_buffer_offset is None {
                Some(BuildAccelerationStructureError::MissingAssociatedData { buffer: id })
            } else if b.destroyed {
                Some(BuildAccelerationStructureError::DestroyedResource { kind: ResourceKind::Buffer, id })
            } else if !contains_bits(b.usage, BUFFER_USAGE_BLAS_INPUT) {
                Some(BuildAccelerationStructureError::MissingBufferUsage { buffer: id, actual: b.usage, expected: BUFFER_USAGE_BLAS_INPUT })
            } else if m.transform_buffer_offset->0 % TRANSFORM_BUFFER_ALIGNMENT != 0 {
                Some(BuildAccelerationStructureError::UnalignedTransformBufferOffset { buffer: id })
            } else if b.size < TRANSFORM_SIZE + m.transform_buffer_offset->0 {
                Some(
                    BuildAccelerationStructureError::InsufficientBufferSize {
                        buffer: id,
                        size: b.size,
                        required: (TRANSFORM_SIZE + m.transform_buffer_offset->0) as u64,
                    },
                )
            } else {
                None
            }
        },
    }
}

/// The checks of a geometry's buffers: vertex, then index, then transform.
pub open spec fn geometry_buffer_error(g: Global, m: BlasTriangleGeometry) -> Option<BuildAccelerationStructureError> {
    if vertex_buffer_error(g, m) is Some {
        vertex_buffer_error(g, m)
    } else if index_buffer_error(g, m) is Some {
        index_buffer_error(g, m)
    } else {
        transform_buffer_error(g, m)
    }
}

/// `geometry_buffer_error` as a check of geometries.
pub open spec fn geometry_buffer_check(g: Global) -> spec_fn(BlasTriangleGeometry) -> Option<BuildAccelerationStructureError> {
    |m: BlasTriangleGeometry| geometry_buffer_error(g, m)
}

/// The buffer checks of every geometry of an entry.
pub open spec fn entry_buffer_error(g: Global, e: BlasBuildEntry) -> Option<BuildAccelerationStructureError> {
    first_err(entry_geometries(e), geometry_buffer_check(g))
}

/// `entry_buffer_error` as a check of entries.
pub open spec fn entry_buffer_check(g: Global) -> spec_fn(BlasBuildEntry) -> Option<BuildAccelerationStructureError> {
    |e: BlasBuildEntry| entry_buffer_error(g, e)
}

/// The number of instances of a package (its slots that hold one).
pub open spec fn instance_count(instances: Seq<Option<TlasInstance>>) -> nat
    decreases instances.len(),
{
    if instances.len() == 0 {
        0
    } else {
        instance_count(instances.drop_last()) + if instances.last() is Some {
            1nat
        } else {
            0nat
        }
    }
}

/// The checks of one instance of package `p`: its custom index, its hit
/// group against the linked pipeline, its BLAS, and vertex return.
pub open spec fn instance_error(g: Global, p: TlasPackage, inst: TlasInstance) -> Option<BuildAccelerationStructureError> {
    let tlas = g.tlas_s.data(p.tlas_id);
    if inst.custom_data >= MAX_CUSTOM_DATA {
        Some(BuildAccelerationStructureError::TlasInvalidCustomIndex { tlas: p.tlas_id })
    } else if inst.ray_hit_group_index is Some && p.linked_pipeline is Some && inst.ray_hit_group_index->0
        >= g.ray_tracing_pipelines.data(p.linked_pipeline->0).num_hit_groups {
        Some(
            BuildAccelerationStructureError::TooLargeHitGroupIndex {
                pipeline: p.linked_pipeline->0,
                tlas: p.tlas_id,
                num_hit_groups: g.ray_tracing_pipelines.data(p.linked_pipeline->0).num_hit_groups,
                index: inst.ray_hit_group_index->0,
            },
        )
    } else if (inst.ray_hit_group_index is Some) != (p.linked_pipeline is Some) {
        Some(BuildAccelerationStructureError::TlasLinkedPipelineInstanceHitGroupIndexMismatch { tlas: p.tlas_id })
    } else if !g.blas_s.is_valid(inst.blas_id) {
        Some(invalid(ResourceKind::Blas, inst.blas_id))
    } else if has_flag(tlas.flags, AS_FLAG_ALLOW_RAY_HIT_VERTEX_RETURN) && !has_flag(
        g.blas_s.data(inst.blas_id).flags,
        AS_FLAG_ALLOW_RAY_HIT_VERTEX_RETURN,
    ) {
        Some(BuildAccelerationStructureError::TlasDependentMissingVertexReturn { tlas: p.tlas_id, blas: inst.blas_id })
    } else {
        None
    }
}

/// `instance_error` as a check of the instance slots of package `p`.
pub open spec fn instance_check(g: Global, p: TlasPackage) -> spec_fn(Option<TlasInstance>) -> Option<
    BuildAccelerationStructureError,
> {
    |o: Option<TlasInstance>|
        match o {
            None => None,
            Some(inst) => instance_error(g, p, inst),
        }
}

/// The checks of a package: its linked pipeline must be valid, then each
/// instance is checked in order, then the number of instances must not
/// exceed the TLAS's maximum.
pub open spec fn package_error(g: Global, p: TlasPackage) -> Option<BuildAccelerationStructureError> {
    let tlas = g.tlas_s.data(p.tlas_id);
    if p.linked_pipeline is Some && !g.ray_tracing_pipelines.is_valid(p.linked_pipeline->0) {
        Some(invalid(ResourceKind::RayTracingPipeline, p.linked_pipeline->0))
    } else {
        match first_err(p.instances@, instance_check(g, p)) {
            Some(e) => Some(e),
            None => if instance_count(p.instances@) > tlas.max_instance_count {
                Some(
                    BuildAccelerationStructureError::TlasInstanceCountExceeded {
                        tlas: p.tlas_id,
                        count: instance_count(p.instances@) as u32,
                        max: tlas.max_instance_count,
                    },
                )
            } else {
                None
            },
        }
    }
}

/// `package_error` as a check of packages.
pub open spec fn package_check(g: Global) -> spec_fn(TlasPackage) -> Option<BuildAccelerationStructureError> {
    |p: TlasPackage| package_error(g, p)
}

/// The lookup of a package's TLAS.
pub open spec fn tlas_lookup_check(g: Global) -> spec_fn(TlasPackage) -> Option<BuildAccelerationStructureError> {
    |p: TlasPackage|
        if g.tlas_s.is_valid(p.tlas_id) {
            None
        } else {
            Some(invalid(ResourceKind::Tlas, p.tlas_id))
        }
}

/// A package's TLAS must not be destroyed.
pub open spec fn tlas_alive_check(g: Global) -> spec_fn(TlasPackage) -> Option<BuildAccelerationStructureError> {
    |p: TlasPackage|
        if g.tlas_s.data(p.tlas_id).destroyed {
            Some(BuildAccelerationStructureError::DestroyedResource { kind: ResourceKind::Tlas, id: p.tlas_id })
        } else {
            None
        }
}

/// The scratch space of the BLAS builds of `entries`, each aligned: only
/// entries with geometries are built.
pub open spec fn blas_scratch_total(g: Global, align: u32, entries: Seq<BlasBuildEntry>) -> int
    decreases entries.len(),
{
    if entries.len() == 0 {
        0
    } else {
        let e = entries.last();
        blas_scratch_total(g, align, entries.drop_last()) + if entry_geometries(e).len() > 0 {
            align_up(truncate_u32(g.blas_s.data(e.blas_id).build_scratch_size) as int, align as int)
        } else {
            0
        }
    }
}

/// The scratch space of the TLAS builds of `packages`, each aligned.
pub open spec fn tlas_scratch_total(g: Global, align: u32, packages: Seq<TlasPackage>) -> int
    decreases packages.len(),
{
    if packages.len() == 0 {
        0
    } else {
        tlas_scratch_total(g, align, packages.drop_last()) + align_up(
            truncate_u32(g.tlas_s.data(packages.last().tlas_id).build_scratch_size) as int,
            align as int,
        )
    }
}

/// The checks, once there is scratch space to use, of a built BLAS: it must
/// not be destroyed, and must not have been compacted.
pub open spec fn built_blas_error(g: Global, e: BlasBuildEntry) -> Option<BuildAccelerationStructureError> {
    if entry_geometries(e).len() == 0 {
        None
    } else if g.blas_s.data(e.blas_id).destroyed {
        Some(BuildAccelerationStructureError::DestroyedResource { kind: ResourceKind::Blas, id: e.blas_id })
    } else if g.blas_s.data(e.blas_id).compacted_state == BlasCompactState::Compacted {
        Some(BuildAccelerationStructureError::CompactedBlas { blas: e.blas_id })
    } else {
        None
    }
}

/// `built_blas_error` as a check of entries.
pub open spec fn built_blas_check(g: Global) -> spec_fn(BlasBuildEntry) -> Option<BuildAccelerationStructureError> {
    |e: BlasBuildEntry| built_blas_error(g, e)
}

/// The byte offset of a geometry's first index into its index buffer.
pub open spec fn index_offset(m: BlasTriangleGeometry) -> u64 {
    match (m.first_index, m.size.index_format) {
        (Some(f), Some(fmt)) => (f * fmt.size()) as u64,
        _ => 0,
    }
}

/// The commands that hand the geometries `ms` of BLAS `blas` to its build.
pub open spec fn geometry_commands(blas: usize, ms: Seq<BlasTriangleGeometry>) -> Seq<RawCommand> {
    Seq::new(ms.len(), |i: int| RawCommand::BlasTriangles { blas, geometry: ms[i], index_offset: index_offset(ms[i]) })
}

/// The commands that build the BLASes of `entries` with geometries, each
/// at its offset into the scratch space, followed by its geometries.
pub open spec fn blas_build_commands(g: Global, align: u32, entries: Seq<BlasBuildEntry>) -> Seq<RawCommand>
    decreases entries.len(),
{
    if entries.len() == 0 {
        Seq::empty()
    } else {
        let e = entries.last();
        blas_build_commands(g, align, entries.drop_last()) + if entry_geometries(e).len() > 0 {
            seq![
                RawCommand::BuildBlas {
                    blas: e.blas_id,
                    scratch_offset: blas_scratch_total(g, align, entries.drop_last()) as u64,
                    geometry_count: entry_geometries(e).len() as usize,
                },
            ] + geometry_commands(e.blas_id, entry_geometries(e))
        } else {
            Seq::empty()
        }
    }
}

/// The commands that read back the compacted size of each built BLAS that
/// allows compaction.
pub open spec fn compaction_commands(g: Global, entries: Seq<BlasBuildEntry>) -> Seq<RawCommand>
    decreases entries.len(),
{
    if entries.len() == 0 {
        Seq::empty()
    } else {
        let e = entries.last();
        compaction_commands(g, entries.drop_last()) + if entry_geometries(e).len() > 0 && has_flag(g.blas_s.data(e.blas_id).flags, AS_FLAG_ALLOW_COMPACTION) {
            seq![RawCommand::ReadBlasCompactSize { blas: e.blas_id }]
        } else {
            Seq::empty()
        }
    }
}

/// The commands that write the instances of a package into its TLAS's
/// instance buffer: each refers to its BLAS by address and to its hit group
/// by shader binding table offset (0 without one).
pub open spec fn instance_commands(g: Global, tlas: usize, instances: Seq<Option<TlasInstance>>) -> Seq<RawCommand>
    decreases instances.len(),
{
    if instances.len() == 0 {
        Seq::empty()
    } else {
        instance_commands(g, tlas, instances.drop_last()) + match instances.last() {
            None => Seq::empty(),
            Some(inst) => seq![
                RawCommand::WriteTlasInstance {
                    tlas,
                    transform: inst.transform,
                    custom_data: inst.custom_data,
                    mask: inst.mask,
                    blas_address: g.blas_s.data(inst.blas_id).handle,
                    shader_binding_table_offset: match inst.ray_hit_group_index {
                        Some(i) => i,
                        None => 0,
                    },
                },
            ],
        }
    }
}

/// The instance writes of every package, in order.
pub open spec fn package_instance_commands(g: Global, packages: Seq<TlasPackage>) -> Seq<RawCommand>
    decreases packages.len(),
{
    if packages.len() == 0 {
        Seq::empty()
    } else {
        let p = packages.last();
        package_instance_commands(g, packages.drop_last()) + instance_commands(g, p.tlas_id, p.instances@)
    }
}

/// The commands that build the TLASes of `packages`, each at its offset
/// into the scratch space.
pub open spec fn tlas_build_commands(g: Global, align: u32, packages: Seq<TlasPackage>) -> Seq<RawCommand>
    decreases packages.len(),
{
    if packages.len() == 0 {
        Seq::empty()
    } else {
        let p = packages.last();
        tlas_build_commands(g, align, packages.drop_last()) + seq![
            RawCommand::BuildTlas {
                tlas: p.tlas_id,
                scratch_offset: tlas_scratch_total(g, align, packages.drop_last()) as u64,
                instance_count: instance_count(p.instances@) as u32,
            },
        ]
    }
}

/// The BLASes that the instances of a package refer to, in order.
pub open spec fn instance_blas_ids(instances: Seq<Option<TlasInstance>>) -> Seq<usize>
    decreases instances.len(),
{
    if instances.len() == 0 {
        Seq::empty()
    } else {
        instance_blas_ids(instances.drop_last()) + match instances.last() {
            None => Seq::<usize>::empty(),
            Some(inst) => seq![inst.blas_id],
        }
    }
}

/// The first error of a build on device `dev`, phase by phase, before any
/// scratch space is considered.
pub open spec fn build_validation_error(
    g: Global,
    dev: usize,
    entries: Seq<BlasBuildEntry>,
    packages: Seq<TlasPackage>,
) -> Option<BuildAccelerationStructureError> {
    if !g.devices@[dev as int].features.ray_tracing_acceleration_structure {
        Some(BuildAccelerationStructureError::MissingFeature(MissingFeature::RayTracingAccelerationStructure))
    } else if first_err(entries, blas_entry_check(g)) is Some {
        first_err(entries, blas_entry_check(g))
    } else if first_err(entries, entry_buffer_check(g)) is Some {
        first_err(entries, entry_buffer_check(g))
    } else if first_err(packages, tlas_lookup_check(g)) is Some {
        first_err(packages, tlas_lookup_check(g))
    } else {
        first_err(packages, package_check(g))
    }
}

/// The errors found once there is scratch space to use: a destroyed TLAS,
/// then a destroyed or compacted BLAS that is built.
pub open spec fn build_resources_error(
    g: Global,
    entries: Seq<BlasBuildEntry>,
    packages: Seq<TlasPackage>,
) -> Option<BuildAccelerationStructureError> {
    if first_err(packages, tlas_alive_check(g)) is Some {
        first_err(packages, tlas_alive_check(g))
    } else {
        first_err(entries, built_blas_check(g))
    }
}

/// The commands that a build records: the BLAS builds, the compacted size
/// read-backs, the TLAS instance writes and the TLAS builds.
pub open spec fn build_commands(g: Global, align: u32, entries: Seq<BlasBuildEntry>, packages: Seq<TlasPackage>) -> Seq<
    RawCommand,
> {
    blas_build_commands(g, align, entries) + compaction_commands(g, entries) + package_instance_commands(g, packages)
        + tlas_build_commands(g, align, packages)
}

/// What a build on device `dev` does: fail with the first error, or do
/// nothing when no scratch space is needed (`None`), or record
/// `build_commands`.
pub open spec fn build_outcome(
    g: Global,
    dev: usize,
    entries: Seq<BlasBuildEntry>,
    packages: Seq<TlasPackage>,
) -> Result<Option<Seq<RawCommand>>, BuildAccelerationStructureError> {
    let align = g.devices@[dev as int].ray_tracing_scratch_buffer_alignment;
    if build_validation_error(g, dev, entries, packages) is Some {
        Err(build_validation_error(g, dev, entries, packages)->0)
    } else if blas_scratch_total(g, align, entries) == 0 && tlas_scratch_total(g, align, packages) == 0 {
        Ok(None)
    } else if build_resources_error(g, entries, packages) is Some {
        Err(build_resources_error(g, entries, packages)->0)
    } else {
        Ok(Some(build_commands(g, align, entries, packages)))
    }
}

/// Every id that a geometry names is registered.
pub open spec fn geometry_ids_registered(g: Global, m: BlasTriangleGeometry) -> bool {
    &&& g.buffers.has_id(m.vertex_buffer)
    &&& m.index_buffer is Some ==> g.buffers.has_id(m.index_buffer->0)
    &&& m.transform_buffer is Some ==> g.buffers.has_id(m.transform_buffer->0)
}

/// Every id that a build names is registered.
pub open spec fn build_ids_registered(g: Global, entries: Seq<BlasBuildEntry>, packages: Seq<TlasPackage>) -> bool {
    &&& forall|k: int|
        0 <= k < entries.len() ==> {
            let e = #[trigger] entries[k];
            &&& g.blas_s.has_id(e.blas_id)
            &&& forall|j: int| 0 <= j < entry_geometries(e).len() ==> geometry_ids_registered(g, #[trigger] entry_geometries(e)[j])
        }
    &&& forall|k: int|
        0 <= k < packages.len() ==> {
            let p = #[trigger] packages[k];
            &&& g.tlas_s.has_id(p.tlas_id)
            &&& p.linked_pipeline is Some ==> g.ray_tracing_pipelines.has_id(p.linked_pipeline->0)
            &&& forall|j: int| 0 <= j < p.instances@.len() && p.instances@[j] is Some ==> g.blas_s.has_id(
                (#[trigger] p.instances@[j])->0.blas_id,
            )
        }
}

/// Returns `geometry_size_error(*g, blas_id, *blas, i, *m)`.
fn check_geometry_size(g: &Global, blas_id: usize, blas: &Blas, i: usize, m: &BlasTriangleGeometry) -> (r: Option<
    BuildAccelerationStructureError,
>)
    requires
        geometry_ids_registered(*g, *m),
        i < blas.sizes@.len() ==> blas.sizes@[i as int].vertex_format.is_blas_format(),
    ensures
        r == geometry_size_error(*g, blas_id, *blas, i as int, *m),
{
    if i >= blas.sizes.len() {
        return Some(BuildAccelerationStructureError::IncompatibleBlasBuildSizes { blas: blas_id });
    }
    let sd = blas.sizes[i];
    if sd.flags != m.size.flags {
        return Some(
            BuildAccelerationStructureError::IncompatibleBlasFlags { blas: blas_id, expected: sd.flags, provided: m.size.flags },
        );
    }
    if sd.vertex_count < m.size.vertex_count {
        return Some(
            BuildAccelerationStructureError::IncompatibleBlasVertexCount {
                blas: blas_id,
                expected: sd.vertex_count,
                provided: m.size.vertex_count,
            },
        );
    }
    if sd.vertex_format != m.size.vertex_format {
        return Some(
            BuildAccelerationStructureError::DifferentBlasVertexFormats {
                blas: blas_id,
                expected: sd.vertex_format,
                provided: m.size.vertex_format,
            },
        );
    }
    let min_stride = sd.vertex_format.min_acceleration_structure_vertex_stride();
    if min_stride > m.vertex_stride {
        return Some(
            BuildAccelerationStructureError::VertexStrideTooSmall { blas: blas_id, min: min_stride, provided: m.vertex_stride },
        );
    }
    let alignment = sd.vertex_format.acceleration_structure_stride_alignment();
    if m.vertex_stride % alignment != 0 {
        return Some(
            BuildAccelerationStructureError::VertexStrideUnaligned { blas: blas_id, alignment, provided: m.vertex_stride },
        );
    }
    match (sd.index_count, m.size.index_count) {
        (Some(_), None) | (None, Some(_)) => {
            return Some(BuildAccelerationStructureError::BlasIndexCountProvidedMismatch { blas: blas_id });
        },
        (Some(create), Some(build)) => {
            if create < build {
                return Some(
                    BuildAccelerationStructureError::IncompatibleBlasIndexCount { blas: blas_id, expected: create, provided: build },
                );
            }
        },
        (None, None) => {},
    }
    if sd.index_format != m.size.index_format {
        return Some(
            BuildAccelerationStructureError::DifferentBlasIndexFormats {
                blas: blas_id,
                expected: sd.index_format,
                provided: m.size.index_format,
            },
        );
    }
    if sd.index_count.is_some() && m.index_buffer.is_none() {
        return Some(BuildAccelerationStructureError::MissingIndexBuffer { blas: blas_id });
    }
    if let Err(e) = g.buffers.get(m.vertex_buffer, ResourceKind::Buffer) {
        return Some(BuildAccelerationStructureError::InvalidResource(e));
    }
    if let Some(index_id) = m.index_buffer {
        if let Err(e) = g.buffers.get(index_id, ResourceKind::Buffer) {
            return Some(BuildAccelerationStructureError::InvalidResource(e));
        }
        if m.first_index.is_none() || m.size.index_count.is_none() {
            return Some(BuildAccelerationStructureError::MissingAssociatedData { buffer: index_id });
        }
    }
    let use_transform = blas.flags & AS_FLAG_USE_TRANSFORM == AS_FLAG_USE_TRANSFORM;
    if let Some(transform_id) = m.transform_buffer {
        if !use_transform {
            return Some(BuildAccelerationStructureError::UseTransformMissing { blas: blas_id });
        }
        if let Err(e) = g.buffers.get(transform_id, ResourceKind::Buffer) {
            return Some(BuildAccelerationStructureError::InvalidResource(e));
        }
        if m.transform_buffer_offset.is_none() {
            return Some(BuildAccelerationStructureError::MissingAssociatedData { buffer: transform_id });
        }
    } else if use_transform {
        return Some(BuildAccelerationStructureError::TransformMissing { blas: blas_id });
    }
    None
}

/// Returns `blas_entry_error(*g, *e)`.
fn check_blas_entry(g: &Global, e: &BlasBuildEntry) -> (r: Option<BuildAccelerationStructureError>)
    requires
        g.well_formed(),
        g.blas_s.has_id(e.blas_id),
        forall|j: int| 0 <= j < entry_geometries(*e).len() ==> geometry_ids_registered(*g, #[trigger] entry_geometries(*e)[j]),
    ensures
        r == blas_entry_error(*g, *e),
{
    let blas = match g.blas_s.get(e.blas_id, ResourceKind::Blas) {
        Ok(b) => b,
        Err(err) => return Some(BuildAccelerationStructureError::InvalidResource(err)),
    };
    assert(g.blas_s.holds(e.blas_id));
    let geometries = match &e.geometries {
        BlasGeometries::TriangleGeometries(v) => v,
    };
    let ghost f = geometry_size_check(*g, e.blas_id);
    let mut i: usize = 0;
    assert(geometries@.take(0) =~= Seq::<BlasTriangleGeometry>::empty());
    while i < geometries.len()
        invariant
            i <= geometries@.len(),
            geometries@ == entry_geometries(*e),
            *blas == g.blas_s.data(e.blas_id),
            g.well_formed(),
            g.blas_s.is_valid(e.blas_id),
            g.blas_s.holds(e.blas_id),
            forall|j: int| 0 <= j < geometries@.len() ==> geometry_ids_registered(*g, #[trigger] geometries@[j]),
            f == geometry_size_check(*g, e.blas_id),
            first_err_at(geometries@.take(i as int), f) is None,
        decreases geometries@.len() - i,
    {
        proof {
            lemma_first_err_at_step(geometries@, f, i as int);
            if i < blas.sizes@.len() {
                let sd = blas.sizes@[i as int];
                assert(sd.vertex_format.is_blas_format());
            }
        }
        let m = &geometries[i];
        let r = check_geometry_size(g, e.blas_id, blas, i, m);
        if r.is_some() {
            proof {
                lemma_first_err_at_persists(geometries@, f, i as int + 1);
            }
            return r;
        }
        i = i + 1;
    }
    assert(geometries@.take(geometries@.len() as int) =~= geometries@);
    None
}

/// Returns the first error of `blas_entry_error` over `entries`.
fn check_blas_entries(g: &Global, entries: &Vec<BlasBuildEntry>) -> (r: Option<BuildAccelerationStructureError>)
    requires
        g.well_formed(),
        build_ids_registered(*g, entries@, Seq::empty()),
    ensures
        r == first_err(entries@, blas_entry_check(*g)),
{
    let ghost f = blas_entry_check(*g);
    let mut k: usize = 0;
    assert(entries@.take(0) =~= Seq::<BlasBuildEntry>::empty());
    while k < entries.len()
        invariant
            k <= entries@.len(),
            g.well_formed(),
            build_ids_registered(*g, entries@, Seq::empty()),
            f == blas_entry_check(*g),
            first_err(entries@.take(k as int), f) is None,
        decreases entries@.len() - k,
    {
        proof {
            lemma_first_err_step(entries@, f, k as int);
        }
        let r = check_blas_entry(g, &entries[k]);
        if r.is_some() {
            proof {
                lemma_first_err_persists(entries@, f, k as int + 1);
            }
            return r;
        }
        k = k + 1;
    }
    assert(entries@.take(entries@.len() as int) =~= entries@);
    None
}

/// The byte counts that the checks of a geometry compute fit their
/// integer types.
pub open spec fn geometry_arith_fits(m: BlasTriangleGeometry) -> bool {
    &&& m.size.vertex_count + m.first_vertex <= u32::MAX
    &&& (m.size.vertex_count + m.first_vertex) * m.vertex_stride <= u64::MAX
    &&& m.index_buffer is Some && m.first_index is Some && m.size.index_format is Some ==> m.first_index->0
        * m.size.index_format->0.size() <= u32::MAX
    &&& m.transform_buffer is Some && m.transform_buffer_offset is Some ==> m.transform_buffer_offset->0 + TRANSFORM_SIZE
        <= u64::MAX
}

/// A geometry that passed the size checks: its buffers are valid and it
/// has the data that goes with them.
pub open spec fn geometry_ready(g: Global, m: BlasTriangleGeometry) -> bool {
    &&& g.buffers.is_valid(m.vertex_buffer)
    &&& m.index_buffer is Some ==> g.buffers.is_valid(m.index_buffer->0) && m.first_index is Some && m.size.index_count is Some
        && m.size.index_format is Some
    &&& m.transform_buffer is Some ==> g.buffers.is_valid(m.transform_buffer->0) && m.transform_buffer_offset is Some
}

/// The geometries of an entry that passed its checks are ready.
proof fn lemma_entry_geometries_ready(g: Global, e: BlasBuildEntry)
    requires
        g.well_formed(),
        blas_entry_error(g, e) is None,
    ensures
        forall|j: int| 0 <= j < entry_geometries(e).len() ==> geometry_ready(g, #[trigger] entry_geometries(e)[j]),
{
    let f = geometry_size_check(g, e.blas_id);
    lemma_first_err_at_none(entry_geometries(e), f);
    assert forall|j: int| 0 <= j < entry_geometries(e).len() implies geometry_ready(g, #[trigger] entry_geometries(e)[j]) by {
        let m = entry_geometries(e)[j];
        assert(f(j, m) is None);
        assert(g.blas_s.holds(e.blas_id));
        let sd = g.blas_s.data(e.blas_id).sizes@[j];
        assert(sd.index_count is Some <==> sd.index_format is Some);
    }
}

/// Returns `geometry_buffer_error(*g, *m)`.
fn check_geometry_buffers(g: &Global, m: &BlasTriangleGeometry) -> (r: Option<BuildAccelerationStructureError>)
    requires
        geometry_ready(*g, *m),
        geometry_arith_fits(*m),
    ensures
        r == geometry_buffer_error(*g, *m),
{
    let vb = g.buffers.resource(m.vertex_buffer);
    if vb.destroyed {
        return Some(BuildAccelerationStructureError::DestroyedResource { kind: ResourceKind::Buffer, id: m.vertex_buffer });
    }
    if vb.usage & BUFFER_USAGE_BLAS_INPUT != BUFFER_USAGE_BLAS_INPUT {
        return Some(
            BuildAccelerationStructureError::MissingBufferUsage {
                buffer: m.vertex_buffer,
                actual: vb.usage,
                expected: BUFFER_USAGE_BLAS_INPUT,
            },
        );
    }
    let vertex_needed = (m.size.vertex_count + m.first_vertex) as u64 * m.vertex_stride;
    if vb.size < vertex_needed {
        return Some(
            BuildAccelerationStructureError::InsufficientBufferSize { buffer: m.vertex_buffer, size: vb.size, required: vertex_needed },
        );
    }
    if let Some(index_id) = m.index_buffer {
        let ib = g.buffers.resource(index_id);
        if ib.destroyed {
            return Some(BuildAccelerationStructureError::DestroyedResource { kind: ResourceKind::Buffer, id: index_id });
        }
        if ib.usage & BUFFER_USAGE_BLAS_INPUT != BUFFER_USAGE_BLAS_INPUT {
            return Some(
                BuildAccelerationStructureError::MissingBufferUsage {
                    buffer: index_id,
                    actual: ib.usage,
                    expected: BUFFER_USAGE_BLAS_INPUT,
                },
            );
        }
        let index_stride = m.size.index_format.unwrap().byte_size() as u64;
        let offset = m.first_index.unwrap() as u64 * index_stride;
        let count = m.size.index_count.unwrap();
        if count % 3 != 0 {
            return Some(BuildAccelerationStructureError::InvalidIndexCount { buffer: index_id, count });
        }
        let index_needed = count as u64 * index_stride + offset;
        if ib.size < index_needed {
            return Some(
                BuildAccelerationStructureError::InsufficientBufferSize { buffer: index_id, size: ib.size, required: index_needed },
            );
        }
    }
    if let Some(transform_id) = m.transform_buffer {
        let offset = match m.transform_buffer_offset {
            Some(o) => o,
            None => return Some(BuildAccelerationStructureError::MissingAssociatedData { buffer: transform_id }),
        };
        let tb = g.buffers.resource(transform_id);
        if tb.destroyed {
            return Some(BuildAccelerationStructureError::DestroyedResource { kind: ResourceKind::Buffer, id: transform_id });
        }
        if tb.usage & BUFFER_USAGE_BLAS_INPUT != BUFFER_USAGE_BLAS_INPUT {
            return Some(
                BuildAccelerationStructureError::MissingBufferUsage {
                    buffer: transform_id,
                    actual: tb.usage,
                    expected: BUFFER_USAGE_BLAS_INPUT,
                },
            );
        }
        if offset % TRANSFORM_BUFFER_ALIGNMENT != 0 {
            return Some(BuildAccelerationStructureError::UnalignedTransformBufferOffset { buffer: transform_id });
        }
        if tb.size < TRANSFORM_SIZE + offset {
            return Some(
                BuildAccelerationStructureError::InsufficientBufferSize {
                    buffer: transform_id,
                    size: tb.size,
                    required: TRANSFORM_SIZE + offset,
                },
            );
        }
    }
    None
}

/// Returns `entry_buffer_error(*g, *e)`.
fn check_entry_buffers(g: &Global, e: &BlasBuildEntry) -> (r: Option<BuildAccelerationStructureError>)
    requires
        forall|j: int| 0 <= j < entry_geometries(*e).len() ==> geometry_ready(*g, #[trigger] entry_geometries(*e)[j])
            && geometry_arith_fits(entry_geometries(*e)[j]),
    ensures
        r == entry_buffer_error(*g, *e),
{
    let geometries = match &e.geometries {
        BlasGeometries::TriangleGeometries(v) => v,
    };
    let ghost f = geometry_buffer_check(*g);
    let mut i: usize = 0;
    assert(geometries@.take(0) =~= Seq::<BlasTriangleGeometry>::empty());
    while i < geometries.len()
        invariant
            i <= geometries@.len(),
            geometries@ == entry_geometries(*e),
            forall|j: int| 0 <= j < geometries@.len() ==> geometry_ready(*g, #[trigger] geometries@[j]) && geometry_arith_fits(
                geometries@[j],
            ),
            f == geometry_buffer_check(*g),
            first_err(geometries@.take(i as int), f) is None,
        decreases geometries@.len() - i,
    {
        proof {
            lemma_first_err_step(geometries@, f, i as int);
        }
        let r = check_geometry_buffers(g, &geometries[i]);
        if r.is_some() {
            proof {
                lemma_first_err_persists(geometries@, f, i as int + 1);
            }
            return r;
        }
        i = i + 1;
    }
    assert(geometries@.take(geometries@.len() as int) =~= geometries@);
    None
}

/// Every geometry of a build fits the integer types of its checks.
pub open spec fn build_geometries_fit(entries: Seq<BlasBuildEntry>) -> bool {
    forall|k: int, j: int|
        0 <= k < entries.len() && 0 <= j < entry_geometries(entries[k]).len() ==> geometry_arith_fits(
            #[trigger] entry_geometries(entries[k])[j],
        )
}

/// Returns the first error of `entry_buffer_error` over `entries`, whose
/// size checks passed.
fn check_all_entry_buffers(g: &Global, entries: &Vec<BlasBuildEntry>) -> (r: Option<BuildAccelerationStructureError>)
    requires
        g.well_formed(),
        first_err(entries@, blas_entry_check(*g)) is None,
        build_geometries_fit(entries@),
    ensures
        r == first_err(entries@, entry_buffer_check(*g)),
{
    let ghost f = entry_buffer_check(*g);
    proof {
        lemma_first_err_none(entries@, blas_entry_check(*g));
    }
    let mut k: usize = 0;
    assert(entries@.take(0) =~= Seq::<BlasBuildEntry>::empty());
    while k < entries.len()
        invariant
            k <= entries@.len(),
            g.well_formed(),
            forall|i: int| 0 <= i < entries@.len() ==> blas_entry_check(*g)(#[trigger] entries@[i]) is None,
            build_geometries_fit(entries@),
            f == entry_buffer_check(*g),
            first_err(entries@.take(k as int), f) is None,
        decreases entries@.len() - k,
    {
        proof {
            lemma_first_err_step(entries@, f, k as int);
            lemma_entry_geometries_ready(*g, entries@[k as int]);
            let e = entries@[k as int];
            assert forall|j: int| 0 <= j < entry_geometries(e).len() implies geometry_arith_fits(
                #[trigger] entry_geometries(e)[j],
            ) by {
                assert(geometry_arith_fits(entry_geometries(entries@[k as int])[j]));
            }
        }
        let r = check_entry_buffers(g, &entries[k]);
        if r.is_some() {
            proof {
                lemma_first_err_persists(entries@, f, k as int + 1);
            }
            return r;
        }
        k = k + 1;
    }
    assert(entries@.take(entries@.len() as int) =~= entries@);
    None
}

/// Returns the first error of `tlas_lookup_check` over `packages`.
fn check_tlas_lookups(g: &Global, packages: &Vec<TlasPackage>) -> (r: Option<BuildAccelerationStructureError>)
    requires
        build_ids_registered(*g, Seq::empty(), packages@),
    ensures
        r == first_err(packages@, tlas_lookup_check(*g)),
{
    let ghost f = tlas_lookup_check(*g);
    let mut k: usize = 0;
    assert(packages@.take(0) =~= Seq::<TlasPackage>::empty());
    while k < packages.len()
        invariant
            k <= packages@.len(),
            build_ids_registered(*g, Seq::empty(), packages@),
            f == tlas_lookup_check(*g),
            first_err(packages@.take(k as int), f) is None,
        decreases packages@.len() - k,
    {
        proof {
            lemma_first_err_step(packages@, f, k as int);
        }
        let id = packages[k].tlas_id;
        if let Err(e) = g.tlas_s.get(id, ResourceKind::Tlas) {
            proof {
                lemma_first_err_persists(packages@, f, k as int + 1);
            }
            return Some(BuildAccelerationStructureError::InvalidResource(e));
        }
        k = k + 1;
    }
    assert(packages@.take(packages@.len() as int) =~= packages@);
    None
}

/// Every instance that passes its hit group check has a shader binding
/// table offset below 2^24.
pub open spec fn instance_offsets_fit(g: Global, p: TlasPackage) -> bool {
    forall|j: int|
        0 <= j < p.instances@.len() && p.instances@[j] is Some && (#[trigger] p.instances@[j])->0.ray_hit_group_index is Some
            && p.linked_pipeline is Some && g.ray_tracing_pipelines.is_valid(p.linked_pipeline->0)
            && p.instances@[j]->0.ray_hit_group_index->0 < g.ray_tracing_pipelines.data(p.linked_pipeline->0).num_hit_groups
            ==> p.instances@[j]->0.ray_hit_group_index->0 < MAX_CUSTOM_DATA
}

/// Returns `instance_error(*g, *p, inst)`, where `tlas_flags` are the flags
/// of the package's TLAS and `num_hit_groups` the hit group count of its
/// linked pipeline, if it has one.
fn check_instance(
    g: &Global,
    p: &TlasPackage,
    tlas_flags: u8,
    num_hit_groups: Option<u32>,
    inst: &TlasInstance,
) -> (r: Option<BuildAccelerationStructureError>)
    requires
        g.tlas_s.holds(p.tlas_id),
        tlas_flags == g.tlas_s.data(p.tlas_id).flags,
        (num_hit_groups is Some) == (p.linked_pipeline is Some),
        p.linked_pipeline is Some ==> g.ray_tracing_pipelines.holds(p.linked_pipeline->0)
            && num_hit_groups->0 == g.ray_tracing_pipelines.data(p.linked_pipeline->0).num_hit_groups,
        g.blas_s.has_id(inst.blas_id),
    ensures
        r == instance_error(*g, *p, *inst),
{
    if inst.custom_data >= MAX_CUSTOM_DATA {
        return Some(BuildAccelerationStructureError::TlasInvalidCustomIndex { tlas: p.tlas_id });
    }
    match (inst.ray_hit_group_index, num_hit_groups) {
        (Some(index), Some(n)) => {
            if index >= n {
                return Some(
                    BuildAccelerationStructureError::TooLargeHitGroupIndex {
                        pipeline: p.linked_pipeline.unwrap(),
                        tlas: p.tlas_id,
                        num_hit_groups: n,
                        index,
                    },
                );
            }
        },
        (None, None) => {},
        _ => {
            return Some(BuildAccelerationStructureError::TlasLinkedPipelineInstanceHitGroupIndexMismatch { tlas: p.tlas_id });
        },
    }
    let blas = match g.blas_s.get(inst.blas_id, ResourceKind::Blas) {
        Ok(b) => b,
        Err(e) => return Some(BuildAccelerationStructureError::InvalidResource(e)),
    };
    let vertex_return = AS_FLAG_ALLOW_RAY_HIT_VERTEX_RETURN;
    if tlas_flags & vertex_return == vertex_return && blas.flags & vertex_return != vertex_return {
        return Some(BuildAccelerationStructureError::TlasDependentMissingVertexReturn { tlas: p.tlas_id, blas: inst.blas_id });
    }
    None
}

/// Returns `package_error(*g, *p)` for a package whose TLAS is valid.
fn check_package(g: &Global, p: &TlasPackage) -> (r: Option<BuildAccelerationStructureError>)
    requires
        g.well_formed(),
        g.tlas_s.is_valid(p.tlas_id),
        p.linked_pipeline is Some ==> g.ray_tracing_pipelines.has_id(p.linked_pipeline->0),
        forall|j: int| 0 <= j < p.instances@.len() && p.instances@[j] is Some ==> g.blas_s.has_id(
            (#[trigger] p.instances@[j])->0.blas_id,
        ),
        p.instances@.len() <= u32::MAX,
    ensures
        r == package_error(*g, *p),
{
    let num_hit_groups = match p.linked_pipeline {
        Some(pl) => match g.ray_tracing_pipelines.get(pl, ResourceKind::RayTracingPipeline) {
            Ok(pipeline) => Some(pipeline.num_hit_groups),
            Err(e) => return Some(BuildAccelerationStructureError::InvalidResource(e)),
        },
        None => None,
    };
    let tlas = g.tlas_s.get(p.tlas_id, ResourceKind::Tlas).unwrap();
    let ghost f = instance_check(*g, *p);
    let mut count: u32 = 0;
    let mut i: usize = 0;
    assert(p.instances@.take(0) =~= Seq::<Option<TlasInstance>>::empty());
    while i < p.instances.len()
        invariant
            i <= p.instances@.len(),
            p.instances@.len() <= u32::MAX,
            g.tlas_s.is_valid(p.tlas_id),
            *tlas == g.tlas_s.data(p.tlas_id),
            (num_hit_groups is Some) == (p.linked_pipeline is Some),
            p.linked_pipeline is Some ==> g.ray_tracing_pipelines.is_valid(p.linked_pipeline->0)
                && num_hit_groups->0 == g.ray_tracing_pipelines.data(p.linked_pipeline->0).num_hit_groups,
            forall|j: int| 0 <= j < p.instances@.len() && p.instances@[j] is Some ==> g.blas_s.has_id(
                (#[trigger] p.instances@[j])->0.blas_id,
            ),
            f == instance_check(*g, *p),
            first_err(p.instances@.take(i as int), f) is None,
            count == instance_count(p.instances@.take(i as int)),
            count <= i,
        decreases p.instances@.len() - i,
    {
        proof {
            lemma_first_err_step(p.instances@, f, i as int);
            assert(p.instances@.take(i as int + 1).drop_last() =~= p.instances@.take(i as int));
            assert(p.instances@.take(i as int + 1).last() == p.instances@[i as int]);
        }
        match &p.instances[i] {
            None => {},
            Some(inst) => {
                let r = check_instance(g, p, tlas.flags, num_hit_groups, inst);
                if r.is_some() {
                    proof {
                        lemma_first_err_persists(p.instances@, f, i as int + 1);
                    }
                    return r;
                }
                count = count + 1;
            },
        }
        i = i + 1;
    }
    assert(p.instances@.take(p.instances@.len() as int) =~= p.instances@);
    if count > tlas.max_instance_count {
        return Some(
            BuildAccelerationStructureError::TlasInstanceCountExceeded {
                tlas: p.tlas_id,
                count,
                max: tlas.max_instance_count,
            },
        );
    }
    None
}

/// Every package of a build has at most `u32::MAX` instance slots, and
/// instance offsets that fit.
pub open spec fn build_packages_fit(g: Global, packages: Seq<TlasPackage>) -> bool {
    forall|k: int| 0 <= k < packages.len() ==> (#[trigger] packages[k]).instances@.len() <= u32::MAX && instance_offsets_fit(g, packages[k])
}

/// Returns the first error of `package_check` over `packages`, whose TLASes
/// are valid.
fn check_packages(g: &Global, packages: &Vec<TlasPackage>) -> (r: Option<BuildAccelerationStructureError>)
    requires
        g.well_formed(),
        build_ids_registered(*g, Seq::empty(), packages@),
        first_err(packages@, tlas_lookup_check(*g)) is None,
        build_packages_fit(*g, packages@),
    ensures
        r == first_err(packages@, package_check(*g)),
{
    let ghost f = package_check(*g);
    proof {
        lemma_first_err_none(packages@, tlas_lookup_check(*g));
    }
    let mut k: usize = 0;
    assert(packages@.take(0) =~= Seq::<TlasPackage>::empty());
    while k < packages.len()
        invariant
            k <= packages@.len(),
            g.well_formed(),
            build_ids_registered(*g, Seq::empty(), packages@),
            forall|i: int| 0 <= i < packages@.len() ==> tlas_lookup_check(*g)(#[trigger] packages@[i]) is None,
            build_packages_fit(*g, packages@),
            f == package_check(*g),
            first_err(packages@.take(k as int), f) is None,
        decreases packages@.len() - k,
    {
        proof {
            lemma_first_err_step(packages@, f, k as int);
        }
        let r = check_package(g, &packages[k]);
        if r.is_some() {
            proof {
                lemma_first_err_persists(packages@, f, k as int + 1);
            }
            return r;
        }
        k = k + 1;
    }
    assert(packages@.take(packages@.len() as int) =~= packages@);
    None
}

/// The aligned scratch sizes of a build fit `u32` one by one and `u64` in total.
pub open spec fn build_scratch_fits(g: Global, align: u32, entries: Seq<BlasBuildEntry>, packages: Seq<TlasPackage>) -> bool {
    &&& forall|k: int|
        0 <= k < entries.len() && entry_geometries(#[trigger] entries[k]).len() > 0 ==> align_up(
            truncate_u32(g.blas_s.data(entries[k].blas_id).build_scratch_size) as int,
            align as int,
        ) <= u32::MAX
    &&& forall|k: int|
        0 <= k < packages.len() ==> align_up(
            truncate_u32(g.tlas_s.data((#[trigger] packages[k]).tlas_id).build_scratch_size) as int,
            align as int,
        ) <= u32::MAX
    &&& blas_scratch_total(g, align, entries) <= u64::MAX
    &&& tlas_scratch_total(g, align, packages) <= u64::MAX
}

/// Rounding up to a positive alignment never decreases a value.
proof fn lemma_align_up_ge(v: int, a: int)
    requires
        v >= 0,
        a > 0,
    ensures
        align_up(v, a) >= v,
{
}

/// The scratch space of a prefix of the entries is at most that of all.
proof fn lemma_blas_scratch_prefix(g: Global, align: u32, entries: Seq<BlasBuildEntry>, k: int)
    requires
        0 <= k <= entries.len(),
        align > 0,
    ensures
        0 <= blas_scratch_total(g, align, entries.take(k)) <= blas_scratch_total(g, align, entries),
    decreases entries.len() - k,
{
    if k == entries.len() {
        assert(entries.take(k) =~= entries);
        lemma_blas_scratch_nonneg(g, align, entries);
    } else {
        assert(entries.take(k + 1).drop_last() =~= entries.take(k));
        lemma_align_up_ge(truncate_u32(g.blas_s.data(entries[k].blas_id).build_scratch_size) as int, align as int);
        lemma_blas_scratch_prefix(g, align, entries, k + 1);
        lemma_blas_scratch_nonneg(g, align, entries.take(k));
    }
}

/// Scratch totals are not negative.
proof fn lemma_blas_scratch_nonneg(g: Global, align: u32, entries: Seq<BlasBuildEntry>)
    requires
        align > 0,
    ensures
        blas_scratch_total(g, align, entries) >= 0,
    decreases entries.len(),
{
    if entries.len() > 0 {
        lemma_blas_scratch_nonneg(g, align, entries.drop_last());
        lemma_align_up_ge(truncate_u32(g.blas_s.data(entries.last().blas_id).build_scratch_size) as int, align as int);
    }
}

/// Scratch totals are not negative.
proof fn lemma_tlas_scratch_nonneg(g: Global, align: u32, packages: Seq<TlasPackage>)
    requires
        align > 0,
    ensures
        tlas_scratch_total(g, align, packages) >= 0,
    decreases packages.len(),
{
    if packages.len() > 0 {
        lemma_tlas_scratch_nonneg(g, align, packages.drop_last());
        lemma_align_up_ge(truncate_u32(g.tlas_s.data(packages.last().tlas_id).build_scratch_size) as int, align as int);
    }
}

/// The scratch space of a prefix of the packages is at most that of all.
proof fn lemma_tlas_scratch_prefix(g: Global, align: u32, packages: Seq<TlasPackage>, k: int)
    requires
        0 <= k <= packages.len(),
        align > 0,
    ensures
        0 <= tlas_scratch_total(g, align, packages.take(k)) <= tlas_scratch_total(g, align, packages),
    decreases packages.len() - k,
{
    if k == packages.len() {
        assert(packages.take(k) =~= packages);
        lemma_tlas_scratch_nonneg(g, align, packages);
    } else {
        assert(packages.take(k + 1).drop_last() =~= packages.take(k));
        lemma_align_up_ge(truncate_u32(g.tlas_s.data(packages[k].tlas_id).build_scratch_size) as int, align as int);
        lemma_tlas_scratch_prefix(g, align, packages, k + 1);
        lemma_tlas_scratch_nonneg(g, align, packages.take(k));
    }
}

/// Whether an entry has geometries.
fn entry_has_geometries(e: &BlasBuildEntry) -> (r: bool)
    ensures
        r == (entry_geometries(*e).len() > 0),
{
    match &e.geometries {
        BlasGeometries::TriangleGeometries(v) => v.len() > 0,
    }
}

/// The number of geometries of an entry.
fn entry_geometry_count(e: &BlasBuildEntry) -> (r: usize)
    ensures
        r == entry_geometries(*e).len(),
{
    match &e.geometries {
        BlasGeometries::TriangleGeometries(v) => v.len(),
    }
}

/// The aligned scratch size of a structure of scratch size `size`.
fn aligned_scratch(size: u64, align: u32) -> (r: u64)
    requires
        align > 0,
        align_up(truncate_u32(size) as int, align as int) <= u32::MAX,
    ensures
        r == align_up(truncate_u32(size) as int, align as int),
{
    #[verifier::truncate]
    let s = size as u32;
    align_to_u32(s, align) as u64
}

/// Appends the BLAS build commands of `entries` to `acts` and returns the
/// BLAS scratch space they use.
fn push_blas_builds(g: &Global, align: u32, entries: &Vec<BlasBuildEntry>, acts: &mut Vec<RawCommand>) -> (total: u64)
    requires
        align > 0,
        forall|k: int| 0 <= k < entries@.len() ==> g.blas_s.holds((#[trigger] entries@[k]).blas_id),
        build_scratch_fits(*g, align, entries@, Seq::empty()),
    ensures
        total == blas_scratch_total(*g, align, entries@),
        final(acts)@ == old(acts)@ + blas_build_commands(*g, align, entries@),
{
    let mut total: u64 = 0;
    let mut k: usize = 0;
    assert(entries@.take(0) =~= Seq::<BlasBuildEntry>::empty());
    assert(acts@ =~= old(acts)@ + blas_build_commands(*g, align, entries@.take(0)));
    while k < entries.len()
        invariant
            k <= entries@.len(),
            align > 0,
            forall|k: int| 0 <= k < entries@.len() ==> g.blas_s.holds((#[trigger] entries@[k]).blas_id),
            build_scratch_fits(*g, align, entries@, Seq::empty()),
            total == blas_scratch_total(*g, align, entries@.take(k as int)),
            acts@ == old(acts)@ + blas_build_commands(*g, align, entries@.take(k as int)),
        decreases entries@.len() - k,
    {
        let e = &entries[k];
        assert(entries@.take(k as int + 1).drop_last() =~= entries@.take(k as int));
        assert(entries@.take(k as int + 1).last() == entries@[k as int]);
        proof {
            lemma_blas_scratch_prefix(*g, align, entries@, k as int + 1);
        }
        if entry_has_geometries(e) {
            let cmd = RawCommand::BuildBlas { blas: e.blas_id, scratch_offset: total, geometry_count: entry_geometry_count(e) };
            acts.push(cmd);
            push_geometry_commands(e, acts);
            let blas = g.blas_s.resource(e.blas_id);
            total = total + aligned_scratch(blas.build_scratch_size, align);
        }
        k = k + 1;
        assert(acts@ =~= old(acts)@ + blas_build_commands(*g, align, entries@.take(k as int)));
    }
    assert(entries@.take(entries@.len() as int) =~= entries@);
    total
}

/// Appends `geometry_commands(e.blas_id, entry_geometries(*e))` to `acts`.
fn push_geometry_commands(e: &BlasBuildEntry, acts: &mut Vec<RawCommand>)
    ensures
        final(acts)@ == old(acts)@ + geometry_commands(e.blas_id, entry_geometries(*e)),
{
    let ms = match &e.geometries {
        BlasGeometries::TriangleGeometries(v) => v,
    };
    let mut i: usize = 0;
    while i < ms.len()
        invariant
            i <= ms@.len(),
            ms@ == entry_geometries(*e),
            acts@ == old(acts)@ + geometry_commands(e.blas_id, ms@.take(i as int)),
        decreases ms@.len() - i,
    {
        let m = ms[i];
        let off: u64 = match (m.first_index, m.size.index_format) {
            (Some(f), Some(fmt)) => {
                let size = fmt.byte_size();
                assert(size <= 4);
                assert(f as u64 * size as u64 <= 4 * 0xffff_ffffu64) by (nonlinear_arith)
                    requires
                        size <= 4,
                ;
                f as u64 * size as u64
            },
            _ => 0,
        };
        acts.push(RawCommand::BlasTriangles { blas: e.blas_id, geometry: m, index_offset: off });
        i = i + 1;
        assert(acts@ =~= old(acts)@ + geometry_commands(e.blas_id, ms@.take(i as int)));
    }
    assert(ms@.take(ms@.len() as int) =~= ms@);
}

/// Returns the TLAS scratch space of `packages`.
fn tlas_scratch(g: &Global, align: u32, packages: &Vec<TlasPackage>) -> (total: u64)
    requires
        align > 0,
        forall|k: int| 0 <= k < packages@.len() ==> g.tlas_s.holds((#[trigger] packages@[k]).tlas_id),
        build_scratch_fits(*g, align, Seq::empty(), packages@),
    ensures
        total == tlas_scratch_total(*g, align, packages@),
{
    let mut total: u64 = 0;
    let mut k: usize = 0;
    assert(packages@.take(0) =~= Seq::<TlasPackage>::empty());
    while k < packages.len()
        invariant
            k <= packages@.len(),
            align > 0,
            forall|k: int| 0 <= k < packages@.len() ==> g.tlas_s.holds((#[trigger] packages@[k]).tlas_id),
            build_scratch_fits(*g, align, Seq::empty(), packages@),
            total == tlas_scratch_total(*g, align, packages@.take(k as int)),
        decreases packages@.len() - k,
    {
        assert(packages@.take(k as int + 1).drop_last() =~= packages@.take(k as int));
        assert(packages@.take(k as int + 1).last() == packages@[k as int]);
        proof {
            lemma_tlas_scratch_prefix(*g, align, packages@, k as int + 1);
        }
        let tlas = g.tlas_s.resource(packages[k].tlas_id);
        total = total + aligned_scratch(tlas.build_scratch_size, align);
        k = k + 1;
    }
    assert(packages@.take(packages@.len() as int) =~= packages@);
    total
}

/// Returns `build_resources_error(*g, entries@, packages@)`.
fn check_build_resources(g: &Global, entries: &Vec<BlasBuildEntry>, packages: &Vec<TlasPackage>) -> (r: Option<
    BuildAccelerationStructureError,
>)
    requires
        forall|k: int| 0 <= k < entries@.len() ==> g.blas_s.holds((#[trigger] entries@[k]).blas_id),
        forall|k: int| 0 <= k < packages@.len() ==> g.tlas_s.holds((#[trigger] packages@[k]).tlas_id),
    ensures
        r == build_resources_error(*g, entries@, packages@),
{
    let ghost f = tlas_alive_check(*g);
    let mut k: usize = 0;
    assert(packages@.take(0) =~= Seq::<TlasPackage>::empty());
    while k < packages.len()
        invariant
            k <= packages@.len(),
            forall|k: int| 0 <= k < packages@.len() ==> g.tlas_s.holds((#[trigger] packages@[k]).tlas_id),
            f == tlas_alive_check(*g),
            first_err(packages@.take(k as int), f) is None,
        decreases packages@.len() - k,
    {
        proof {
            lemma_first_err_step(packages@, f, k as int);
        }
        let id = packages[k].tlas_id;
        if g.tlas_s.resource(id).destroyed {
            proof {
                lemma_first_err_persists(packages@, f, k as int + 1);
            }
            return Some(BuildAccelerationStructureError::DestroyedResource { kind: ResourceKind::Tlas, id });
        }
        k = k + 1;
    }
    assert(packages@.take(packages@.len() as int) =~= packages@);
    let ghost h = built_blas_check(*g);
    let mut k: usize = 0;
    assert(entries@.take(0) =~= Seq::<BlasBuildEntry>::empty());
    while k < entries.len()
        invariant
            k <= entries@.len(),
            forall|k: int| 0 <= k < entries@.len() ==> g.blas_s.holds((#[trigger] entries@[k]).blas_id),
            first_err(packages@, f) is None,
            f == tlas_alive_check(*g),
            h == built_blas_check(*g),
            first_err(entries@.take(k as int), h) is None,
        decreases entries@.len() - k,
    {
        proof {
            lemma_first_err_step(entries@, h, k as int);
        }
        let e = &entries[k];
        if entry_has_geometries(e) {
            let blas = g.blas_s.resource(e.blas_id);
            let err = if blas.destroyed {
                Some(BuildAccelerationStructureError::DestroyedResource { kind: ResourceKind::Blas, id: e.blas_id })
            } else if blas.compacted_state == BlasCompactState::Compacted {
                Some(BuildAccelerationStructureError::CompactedBlas { blas: e.blas_id })
            } else {
                None
            };
            if err.is_some() {
                proof {
                    lemma_first_err_persists(entries@, h, k as int + 1);
                }
                return err;
            }
        }
        k = k + 1;
    }
    assert(entries@.take(entries@.len() as int) =~= entries@);
    None
}

/// Appends the compacted size read-backs of `entries` to `acts`.
fn push_compaction_reads(g: &Global, entries: &Vec<BlasBuildEntry>, acts: &mut Vec<RawCommand>)
    requires
        forall|k: int| 0 <= k < entries@.len() ==> g.blas_s.holds((#[trigger] entries@[k]).blas_id),
    ensures
        final(acts)@ == old(acts)@ + compaction_commands(*g, entries@),
{
    let mut k: usize = 0;
    assert(entries@.take(0) =~= Seq::<BlasBuildEntry>::empty());
    assert(acts@ =~= old(acts)@ + compaction_commands(*g, entries@.take(0)));
    while k < entries.len()
        invariant
            k <= entries@.len(),
            forall|k: int| 0 <= k < entries@.len() ==> g.blas_s.holds((#[trigger] entries@[k]).blas_id),
            acts@ == old(acts)@ + compaction_commands(*g, entries@.take(k as int)),
        decreases entries@.len() - k,
    {
        let e = &entries[k];
        assert(entries@.take(k as int + 1).drop_last() =~= entries@.take(k as int));
        assert(entries@.take(k as int + 1).last() == entries@[k as int]);
        if entry_has_geometries(e) {
            let blas = g.blas_s.resource(e.blas_id);
            if blas.flags & AS_FLAG_ALLOW_COMPACTION == AS_FLAG_ALLOW_COMPACTION {
                acts.push(RawCommand::ReadBlasCompactSize { blas: e.blas_id });
            }
        }
        k = k + 1;
        assert(acts@ =~= old(acts)@ + compaction_commands(*g, entries@.take(k as int)));
    }
    assert(entries@.take(entries@.len() as int) =~= entries@);
}

/// Appends the instance writes of package `p` to `acts` and returns its
/// instance count and the BLASes its instances refer to.
fn push_instance_writes(g: &Global, p: &TlasPackage, acts: &mut Vec<RawCommand>) -> (r: (u32, Vec<usize>))
    requires
        p.instances@.len() <= u32::MAX,
        forall|j: int| 0 <= j < p.instances@.len() && p.instances@[j] is Some ==> g.blas_s.holds(
            (#[trigger] p.instances@[j])->0.blas_id,
        ),
    ensures
        final(acts)@ == old(acts)@ + instance_commands(*g, p.tlas_id, p.instances@),
        r.0 == instance_count(p.instances@),
        r.1@ == instance_blas_ids(p.instances@),
{
    let mut count: u32 = 0;
    let mut deps: Vec<usize> = Vec::new();
    let mut i: usize = 0;
    let ghost s = p.instances@;
    assert(s.take(0) =~= Seq::<Option<TlasInstance>>::empty());
    assert(acts@ =~= old(acts)@ + instance_commands(*g, p.tlas_id, s.take(0)));
    assert(deps@ =~= instance_blas_ids(s.take(0)));
    while i < p.instances.len()
        invariant
            i <= s.len(),
            s == p.instances@,
            s.len() <= u32::MAX,
            forall|j: int| 0 <= j < s.len() && s[j] is Some ==> g.blas_s.holds((#[trigger] s[j])->0.blas_id),
            acts@ == old(acts)@ + instance_commands(*g, p.tlas_id, s.take(i as int)),
            count == instance_count(s.take(i as int)),
            count <= i,
            deps@ == instance_blas_ids(s.take(i as int)),
        decreases s.len() - i,
    {
        assert(s.take(i as int + 1).drop_last() =~= s.take(i as int));
        assert(s.take(i as int + 1).last() == s[i as int]);
        match &p.instances[i] {
            None => {},
            Some(inst) => {
                let blas = g.blas_s.resource(inst.blas_id);
                let offset = match inst.ray_hit_group_index {
                    Some(idx) => idx,
                    None => 0,
                };
                acts.push(
                    RawCommand::WriteTlasInstance {
                        tlas: p.tlas_id,
                        transform: inst.transform,
                        custom_data: inst.custom_data,
                        mask: inst.mask,
                        blas_address: blas.handle,
                        shader_binding_table_offset: offset,
                    },
                );
                count = count + 1;
                deps.push(inst.blas_id);
            },
        }
        i = i + 1;
        assert(acts@ =~= old(acts)@ + instance_commands(*g, p.tlas_id, s.take(i as int)));
        assert(deps@ =~= instance_blas_ids(s.take(i as int)));
    }
    assert(s.take(s.len() as int) =~= s);
    (count, deps)
}

/// The BLASes and TLASes that a build builds, with each TLAS's
/// dependencies: the BLASes its instances refer to.
pub open spec fn as_build_records(b: AsBuild, entries: Seq<BlasBuildEntry>, packages: Seq<TlasPackage>) -> bool {
    &&& b.blas_s_built@ == entries.map_values(|e: BlasBuildEntry| e.blas_id)
    &&& b.tlas_s_built@.len() == packages.len()
    &&& forall|k: int|
        0 <= k < packages.len() ==> (#[trigger] b.tlas_s_built@[k]).tlas == packages[k].tlas_id
            && b.tlas_s_built@[k].dependencies@ == instance_blas_ids(packages[k].instances@)
}

/// Appends the instance writes and the builds of the TLASes of `packages`
/// to `acts`, and returns their build records.
fn push_tlas_builds(g: &Global, align: u32, packages: &Vec<TlasPackage>, acts: &mut Vec<RawCommand>) -> (r: Vec<TlasBuild>)
    requires
        align > 0,
        forall|k: int| 0 <= k < packages@.len() ==> g.tlas_s.holds((#[trigger] packages@[k]).tlas_id),
        forall|k: int, j: int|
            0 <= k < packages@.len() && 0 <= j < packages@[k].instances@.len() && packages@[k].instances@[j] is Some
                ==> g.blas_s.holds((#[trigger] packages@[k].instances@[j])->0.blas_id),
        forall|k: int| 0 <= k < packages@.len() ==> (#[trigger] packages@[k]).instances@.len() <= u32::MAX,
        build_scratch_fits(*g, align, Seq::empty(), packages@),
    ensures
        final(acts)@ == old(acts)@ + package_instance_commands(*g, packages@) + tlas_build_commands(*g, align, packages@),
        r@.len() == packages@.len(),
        forall|k: int|
            0 <= k < packages@.len() ==> (#[trigger] r@[k]).tlas == packages@[k].tlas_id && r@[k].dependencies@
                == instance_blas_ids(packages@[k].instances@),
{
    let mut builds: Vec<TlasBuild> = Vec::new();
    let mut build_cmds: Vec<RawCommand> = Vec::new();
    let mut offset: u64 = 0;
    let mut k: usize = 0;
    let ghost s = packages@;
    assert(s.take(0) =~= Seq::<TlasPackage>::empty());
    assert(acts@ =~= old(acts)@ + package_instance_commands(*g, s.take(0)));
    assert(build_cmds@ =~= tlas_build_commands(*g, align, s.take(0)));
    while k < packages.len()
        invariant
            k <= s.len(),
            s == packages@,
            align > 0,
            forall|k: int| 0 <= k < s.len() ==> g.tlas_s.holds((#[trigger] s[k]).tlas_id),
            forall|k: int, j: int|
                0 <= k < s.len() && 0 <= j < s[k].instances@.len() && s[k].instances@[j] is Some ==> g.blas_s.holds(
                    (#[trigger] s[k].instances@[j])->0.blas_id,
                ),
            forall|k: int| 0 <= k < s.len() ==> (#[trigger] s[k]).instances@.len() <= u32::MAX,
            build_scratch_fits(*g, align, Seq::empty(), s),
            offset == tlas_scratch_total(*g, align, s.take(k as int)),
            acts@ == old(acts)@ + package_instance_commands(*g, s.take(k as int)),
            build_cmds@ == tlas_build_commands(*g, align, s.take(k as int)),
            builds@.len() == k,
            forall|j: int|
                0 <= j < k ==> (#[trigger] builds@[j]).tlas == s[j].tlas_id && builds@[j].dependencies@ == instance_blas_ids(
                    s[j].instances@,
                ),
        decreases s.len() - k,
    {
        let p = &packages[k];
        assert(s.take(k as int + 1).drop_last() =~= s.take(k as int));
        assert(s.take(k as int + 1).last() == s[k as int]);
        proof {
            lemma_tlas_scratch_prefix(*g, align, s, k as int + 1);
        }
        assert(forall|j: int| 0 <= j < p.instances@.len() && p.instances@[j] is Some ==> g.blas_s.holds(
            (#[trigger] p.instances@[j])->0.blas_id,
        ));
        let (count, deps) = push_instance_writes(g, p, acts);
        build_cmds.push(RawCommand::BuildTlas { tlas: p.tlas_id, scratch_offset: offset, instance_count: count });
        let tlas = g.tlas_s.resource(p.tlas_id);
        offset = offset + aligned_scratch(tlas.build_scratch_size, align);
        builds.push(TlasBuild { tlas: p.tlas_id, dependencies: deps });
        k = k + 1;
        assert(acts@ =~= old(acts)@ + package_instance_commands(*g, s.take(k as int)));
        assert(build_cmds@ =~= tlas_build_commands(*g, align, s.take(k as int)));
    }
    assert(s.take(s.len() as int) =~= s);
    let ghost mid = acts@;
    acts.append(&mut build_cmds);
    assert(acts@ =~= old(acts)@ + package_instance_commands(*g, packages@) + tlas_build_commands(*g, align, packages@));
    builds
}

/// The ids of the BLASes of `entries`, in order.
fn entry_blas_ids(entries: &Vec<BlasBuildEntry>) -> (r: Vec<usize>)
    ensures
        r@ == entries@.map_values(|e: BlasBuildEntry| e.blas_id),
{
    let mut r: Vec<usize> = Vec::new();
    let mut k: usize = 0;
    while k < entries.len()
        invariant
            k <= entries@.len(),
            r@ == entries@.take(k as int).map_values(|e: BlasBuildEntry| e.blas_id),
        decreases entries@.len() - k,
    {
        r.push(entries[k].blas_id);
        k = k + 1;
        assert(r@ =~= entries@.take(k as int).map_values(|e: BlasBuildEntry| e.blas_id));
    }
    assert(entries@.take(entries@.len() as int) =~= entries@);
    r
}

/// What a build request must satisfy beyond what its checks test: every id
/// it names is registered, and the sizes it computes fit their types.
pub open spec fn build_request_fits(g: Global, dev: usize, entries: Seq<BlasBuildEntry>, packages: Seq<TlasPackage>) -> bool {
    &&& build_ids_registered(g, entries, packages)
    &&& build_geometries_fit(entries)
    &&& build_packages_fit(g, packages)
    &&& build_scratch_fits(g, g.devices@[dev as int].ray_tracing_scratch_buffer_alignment, entries, packages)
}

/// The instances of a package that passed its checks refer to valid BLASes.
proof fn lemma_package_instances_valid(g: Global, p: TlasPackage)
    requires
        package_error(g, p) is None,
        !(p.linked_pipeline is Some && !g.ray_tracing_pipelines.is_valid(p.linked_pipeline->0)),
    ensures
        forall|j: int| 0 <= j < p.instances@.len() && p.instances@[j] is Some ==> g.blas_s.is_valid(
            (#[trigger] p.instances@[j])->0.blas_id,
        ),
{
    lemma_first_err_none(p.instances@, instance_check(g, p));
}

/// Validates a build of the BLASes of `entries` and the TLASes of `packages`
/// on device `dev` and plans it (see `build_outcome`): the first error, or
/// nothing to do, or the structures built with the commands that build them.
pub fn plan_acceleration_structure_build(
    g: &Global,
    dev: usize,
    entries: &Vec<BlasBuildEntry>,
    packages: &Vec<TlasPackage>,
) -> (r: Result<Option<(AsBuild, Vec<RawCommand>)>, BuildAccelerationStructureError>)
    requires
        g.well_formed(),
        dev < g.devices@.len(),
        build_request_fits(*g, dev, entries@, packages@),
    ensures
        match build_outcome(*g, dev, entries@, packages@) {
            Err(e) => r == Err::<Option<(AsBuild, Vec<RawCommand>)>, BuildAccelerationStructureError>(e),
            Ok(None) => r matches Ok(None),
            Ok(Some(cmds)) => r matches Ok(Some((b, acts))) && acts@ == cmds && as_build_records(b, entries@, packages@),
        },
{
    let device = &g.devices[dev];
    assert(device.well_formed());
    if !device.features.ray_tracing_acceleration_structure {
        return Err(BuildAccelerationStructureError::MissingFeature(MissingFeature::RayTracingAccelerationStructure));
    }
    if let Some(e) = check_blas_entries(g, entries) {
        return Err(e);
    }
    if let Some(e) = check_all_entry_buffers(g, entries) {
        return Err(e);
    }
    if let Some(e) = check_tlas_lookups(g, packages) {
        return Err(e);
    }
    if let Some(e) = check_packages(g, packages) {
        return Err(e);
    }
    proof {
        lemma_first_err_none(entries@, blas_entry_check(*g));
        lemma_first_err_none(packages@, tlas_lookup_check(*g));
        lemma_first_err_none(packages@, package_check(*g));
        assert forall|k: int| 0 <= k < entries@.len() implies g.blas_s.holds((#[trigger] entries@[k]).blas_id) by {
            assert(blas_entry_check(*g)(entries@[k]) is None);
        }
        assert forall|k: int| 0 <= k < packages@.len() implies g.tlas_s.holds((#[trigger] packages@[k]).tlas_id) by {
            assert(tlas_lookup_check(*g)(packages@[k]) is None);
        }
        assert forall|k: int, j: int|
            0 <= k < packages@.len() && 0 <= j < packages@[k].instances@.len() && packages@[k].instances@[j] is Some
                implies g.blas_s.holds((#[trigger] packages@[k].instances@[j])->0.blas_id) by {
            let p = packages@[k];
            assert(package_check(*g)(p) is None);
            lemma_package_instances_valid(*g, p);
        }
    }
    let align = device.ray_tracing_scratch_buffer_alignment;
    let mut acts: Vec<RawCommand> = Vec::new();
    let blas_total = push_blas_builds(g, align, entries, &mut acts);
    let tlas_total = tlas_scratch(g, align, packages);
    if blas_total == 0 && tlas_total == 0 {
        return Ok(None);
    }
    if let Some(e) = check_build_resources(g, entries, packages) {
        return Err(e);
    }
    push_compaction_reads(g, entries, &mut acts);
    let tlas_s_built = push_tlas_builds(g, align, packages, &mut acts);
    let blas_s_built = entry_blas_ids(entries);
    let build = AsBuild { blas_s_built, tlas_s_built };
    assert(acts@ =~= build_commands(*g, align, entries@, packages@));
    Ok(Some((build, acts)))
}

/// The lookup of a BLAS id.
pub open spec fn blas_id_check(g: Global) -> spec_fn(usize) -> Option<BuildAccelerationStructureError> {
    |id: usize|
        if g.blas_s.is_valid(id) {
            None
        } else {
            Some(invalid(ResourceKind::Blas, id))
        }
}

/// The lookup of a TLAS id.
pub open spec fn tlas_id_check(g: Global) -> spec_fn(usize) -> Option<BuildAccelerationStructureError> {
    |id: usize|
        if g.tlas_s.is_valid(id) {
            None
        } else {
            Some(invalid(ResourceKind::Tlas, id))
        }
}

/// The first error of marking the BLASes `blas_ids` and the TLASes
/// `tlas_ids` as built on device `dev`: the feature, then each BLAS, then
/// each TLAS must be valid.
pub open spec fn mark_built_error(g: Global, dev: usize, blas_ids: Seq<usize>, tlas_ids: Seq<usize>) -> Option<
    BuildAccelerationStructureError,
> {
    if !g.devices@[dev as int].features.ray_tracing_acceleration_structure {
        Some(BuildAccelerationStructureError::MissingFeature(MissingFeature::RayTracingAccelerationStructure))
    } else if first_err(blas_ids, blas_id_check(g)) is Some {
        first_err(blas_ids, blas_id_check(g))
    } else {
        first_err(tlas_ids, tlas_id_check(g))
    }
}

/// Returns `mark_built_error(*g, dev, blas_ids@, tlas_ids@)`.
pub fn check_mark_built(g: &Global, dev: usize, blas_ids: &[usize], tlas_ids: &[usize]) -> (r: Option<
    BuildAccelerationStructureError,
>)
    requires
        dev < g.devices@.len(),
        forall|j: int| 0 <= j < blas_ids@.len() ==> g.blas_s.has_id(#[trigger] blas_ids@[j]),
        forall|j: int| 0 <= j < tlas_ids@.len() ==> g.tlas_s.has_id(#[trigger] tlas_ids@[j]),
    ensures
        r == mark_built_error(*g, dev, blas_ids@, tlas_ids@),
{
    if !g.devices[dev].features.ray_tracing_acceleration_structure {
        return Some(BuildAccelerationStructureError::MissingFeature(MissingFeature::RayTracingAccelerationStructure));
    }
    let ghost f = blas_id_check(*g);
    let mut k: usize = 0;
    assert(blas_ids@.take(0) =~= Seq::<usize>::empty());
    while k < blas_ids.len()
        invariant
            k <= blas_ids@.len(),
            forall|j: int| 0 <= j < blas_ids@.len() ==> g.blas_s.has_id(#[trigger] blas_ids@[j]),
            dev < g.devices@.len(),
            g.devices@[dev as int].features.ray_tracing_acceleration_structure,
            f == blas_id_check(*g),
            first_err(blas_ids@.take(k as int), f) is None,
        decreases blas_ids@.len() - k,
    {
        proof {
            lemma_first_err_step(blas_ids@, f, k as int);
        }
        if let Err(e) = g.blas_s.get(blas_ids[k], ResourceKind::Blas) {
            proof {
                lemma_first_err_persists(blas_ids@, f, k as int + 1);
            }
            return Some(BuildAccelerationStructureError::InvalidResource(e));
        }
        k = k + 1;
    }
    assert(blas_ids@.take(blas_ids@.len() as int) =~= blas_ids@);
    let ghost h = tlas_id_check(*g);
    let mut k: usize = 0;
    assert(tlas_ids@.take(0) =~= Seq::<usize>::empty());
    while k < tlas_ids.len()
        invariant
            k <= tlas_ids@.len(),
            forall|j: int| 0 <= j < tlas_ids@.len() ==> g.tlas_s.has_id(#[trigger] tlas_ids@[j]),
            dev < g.devices@.len(),
            g.devices@[dev as int].features.ray_tracing_acceleration_structure,
            first_err(blas_ids@, f) is None,
            f == blas_id_check(*g),
            h == tlas_id_check(*g),
            first_err(tlas_ids@.take(k as int), h) is None,
        decreases tlas_ids@.len() - k,
    {
        proof {
            lemma_first_err_step(tlas_ids@, h, k as int);
        }
        if let Err(e) = g.tlas_s.get(tlas_ids[k], ResourceKind::Tlas) {
            proof {
                lemma_first_err_persists(tlas_ids@, h, k as int + 1);
            }
            return Some(BuildAccelerationStructureError::InvalidResource(e));
        }
        k = k + 1;
    }
    assert(tlas_ids@.take(tlas_ids@.len() as int) =~= tlas_ids@);
    None
}

impl Global {
    /// Records that the BLASes `blas_ids` and the TLASes `tlas_ids` were
    /// built outside of this encoder, as a build action without
    /// dependencies.
    ///
    /// Only an encoder that records can record: otherwise the encoder state
    /// changes and the error is returned as `record_check_spec` says.  Once
    /// it records, an error of `mark_built_error` invalidates the encoder
    /// and nothing is recorded; `Ok` is returned either way.
    pub fn command_encoder_mark_acceleration_structures_built(
        &mut self,
        encoder_id: usize,
        blas_ids: &[usize],
        tlas_ids: &[usize],
    ) -> (r: Result<(), EncoderStateError>)
        requires
            old(self).well_formed(),
            encoder_id < old(self).command_buffers@.len(),
            forall|j: int| 0 <= j < blas_ids@.len() ==> old(self).blas_s.has_id(#[trigger] blas_ids@[j]),
            forall|j: int| 0 <= j < tlas_ids@.len() ==> old(self).tlas_s.has_id(#[trigger] tlas_ids@[j]),
        ensures
            final(self).same_resources(*old(self)),
            final(self).command_buffers@.len() == old(self).command_buffers@.len(),
            forall|i: int| 0 <= i < old(self).command_buffers@.len() && i != encoder_id ==> final(self).command_buffers@[i]
                == old(self).command_buffers@[i],
            ({
                let cb = old(self).command_buffers@[encoder_id as int];
                let new_cb = final(self).command_buffers@[encoder_id as int];
                let (status, check) = record_check_spec(cb.status);
                &&& new_cb.device == cb.device
                &&& new_cb.commands@ == cb.commands@
                &&& if check is Err {
                    r == check && new_cb.status == status && new_cb.as_actions@ == cb.as_actions@
                } else if mark_built_error(*old(self), cb.device, blas_ids@, tlas_ids@) is Some {
                    r is Ok && new_cb.status == EncoderStatus::Error(
                        CommandEncoderError::BuildAccelerationStructure(mark_built_error(*old(self), cb.device, blas_ids@, tlas_ids@)->0),
                    ) && new_cb.as_actions@ == cb.as_actions@
                } else {
                    &&& r is Ok
                    &&& new_cb.status == EncoderStatus::Recording
                    &&& new_cb.as_actions@.len() == cb.as_actions@.len() + 1
                    &&& new_cb.as_actions@.take(cb.as_actions@.len() as int) == cb.as_actions@
                    &&& new_cb.as_actions@.last() matches AsAction::Build(b) && b.blas_s_built@ == blas_ids@
                        && b.tlas_s_built@.len() == tlas_ids@.len() && forall|j: int|
                        0 <= j < tlas_ids@.len() ==> (#[trigger] b.tlas_s_built@[j]).tlas == tlas_ids@[j]
                            && b.tlas_s_built@[j].dependencies@.len() == 0
                }
            }),
    {
        let dev = self.command_buffers[encoder_id].device;
        let (status, check) = record_check(self.command_buffers[encoder_id].status);
        if let Err(e) = check {
            self.set_encoder_status(encoder_id, status);
            return Err(e);
        }
        assert(dev < self.devices@.len());
        if let Some(e) = check_mark_built(self, dev, blas_ids, tlas_ids) {
            self.set_encoder_status(encoder_id, EncoderStatus::Error(CommandEncoderError::BuildAccelerationStructure(e)));
            return Ok(());
        }
        let mut blas_s_built: Vec<usize> = Vec::new();
        let mut k: usize = 0;
        while k < blas_ids.len()
            invariant
                k <= blas_ids@.len(),
                blas_s_built@ == blas_ids@.take(k as int),
            decreases blas_ids@.len() - k,
        {
            blas_s_built.push(blas_ids[k]);
            k = k + 1;
            assert(blas_s_built@ =~= blas_ids@.take(k as int));
        }
        assert(blas_ids@.take(blas_ids@.len() as int) =~= blas_ids@);
        let mut tlas_s_built: Vec<TlasBuild> = Vec::new();
        let mut k: usize = 0;
        while k < tlas_ids.len()
            invariant
                k <= tlas_ids@.len(),
                tlas_s_built@.len() == k,
                forall|j: int| 0 <= j < k ==> (#[trigger] tlas_s_built@[j]).tlas == tlas_ids@[j]
                    && tlas_s_built@[j].dependencies@.len() == 0,
            decreases tlas_ids@.len() - k,
        {
            tlas_s_built.push(TlasBuild { tlas: tlas_ids[k], dependencies: Vec::new() });
            k = k + 1;
        }
        let ghost old_actions = self.command_buffers@[encoder_id as int].as_actions@;
        self.push_as_action(encoder_id, AsAction::Build(AsBuild { blas_s_built, tlas_s_built }), EncoderStatus::Recording);
        assert(self.command_buffers@[encoder_id as int].as_actions@.take(old_actions.len() as int) =~= old_actions);
        Ok(())
    }

    /// Builds the BLASes of `entries` and the TLASes of `packages` in encoder
    /// `encoder_id`.
    ///
    /// Only an encoder that records can record: otherwise the encoder state
    /// changes and the error is returned as `record_check_spec` says.  Once
    /// it records, `Ok` is returned and the build goes as `build_outcome`
    /// says: an error invalidates the encoder and records nothing; a build
    /// that needs no scratch space records nothing; otherwise the build's
    /// commands are recorded, and so is the build action, for the checks at
    /// submission.
    pub fn command_encoder_build_acceleration_structures(
        &mut self,
        encoder_id: usize,
        entries: &Vec<BlasBuildEntry>,
        packages: &Vec<TlasPackage>,
    ) -> (r: Result<(), EncoderStateError>)
        requires
            old(self).well_formed(),
            encoder_id < old(self).command_buffers@.len(),
            build_request_fits(*old(self), old(self).command_buffers@[encoder_id as int].device, entries@, packages@),
        ensures
            final(self).same_resources(*old(self)),
            final(self).command_buffers@.len() == old(self).command_buffers@.len(),
            forall|i: int| 0 <= i < old(self).command_buffers@.len() && i != encoder_id ==> final(self).command_buffers@[i]
                == old(self).command_buffers@[i],
            ({
                let cb = old(self).command_buffers@[encoder_id as int];
                let new_cb = final(self).command_buffers@[encoder_id as int];
                let (status, check) = record_check_spec(cb.status);
                &&& new_cb.device == cb.device
                &&& if check is Err {
                    r == check && new_cb.status == status && new_cb.commands@ == cb.commands@ && new_cb.as_actions@
                        == cb.as_actions@
                } else {
                    &&& r is Ok
                    &&& match build_outcome(*old(self), cb.device, entries@, packages@) {
                        Err(e) => new_cb.status == EncoderStatus::Error(CommandEncoderError::BuildAccelerationStructure(e))
                            && new_cb.commands@ == cb.commands@
                            && new_cb.as_actions@ == cb.as_actions@,
                        Ok(None) => new_cb.status == EncoderStatus::Recording && new_cb.commands@ == cb.commands@
                            && new_cb.as_actions@ == cb.as_actions@,
                        Ok(Some(cmds)) => {
                            &&& new_cb.status == EncoderStatus::Recording
                            &&& new_cb.commands@ == cb.commands@ + cmds
                            &&& new_cb.as_actions@.len() == cb.as_actions@.len() + 1
                            &&& new_cb.as_actions@.take(cb.as_actions@.len() as int) == cb.as_actions@
                            &&& new_cb.as_actions@.last() matches AsAction::Build(b) && as_build_records(b, entries@, packages@)
                        },
                    }
                }
            }),
    {
        let dev = self.command_buffers[encoder_id].device;
        let (status, check) = record_check(self.command_buffers[encoder_id].status);
        if let Err(e) = check {
            self.set_encoder_status(encoder_id, status);
            return Err(e);
        }
        assert(dev < self.devices@.len());
        match plan_acceleration_structure_build(self, dev, entries, packages) {
            Err(e) => {
                self.set_encoder_status(encoder_id, EncoderStatus::Error(CommandEncoderError::BuildAccelerationStructure(e)));
            },
            Ok(None) => {},
            Ok(Some((build, mut acts))) => {
                let ghost old_actions = self.command_buffers@[encoder_id as int].as_actions@;
                self.append_commands(encoder_id, &mut acts, EncoderStatus::Recording);
                self.push_as_action(encoder_id, AsAction::Build(build), EncoderStatus::Recording);
                assert(self.command_buffers@[encoder_id as int].as_actions@.take(old_actions.len() as int) =~= old_actions);
            },
        }
        Ok(())
    }
}

/// A build that is accepted reads only bytes inside its buffers: for every
/// geometry of every BLAS entry, the vertices read, from `first_vertex` for
/// `vertex_count` vertices of `vertex_stride` bytes, lie inside the vertex
/// buffer, and the indices read, from index `first_index` for `index_count`
/// indices of the index format's size, lie inside the index buffer, and the
/// 48 bytes of a transform matrix, read from its 16-byte aligned offset, lie
/// inside the transform buffer.
pub proof fn lemma_accepted_build_reads_inside_buffers(
    g: Global,
    dev: usize,
    entries: Seq<BlasBuildEntry>,
    packages: Seq<TlasPackage>,
    k: int,
    j: int,
)
    requires
        build_outcome(g, dev, entries, packages) is Ok,
        0 <= k < entries.len(),
        0 <= j < entry_geometries(entries[k]).len(),
    ensures
        ({
            let m = entry_geometries(entries[k])[j];
            &&& (m.first_vertex + m.size.vertex_count) * m.vertex_stride <= g.buffers.data(m.vertex_buffer).size
            &&& m.index_buffer is Some && m.size.index_format is Some && m.first_index is Some
                && m.size.index_count is Some ==> (m.first_index->0 + m.size.index_count->0)
                * m.size.index_format->0.size() <= g.buffers.data(m.index_buffer->0).size
            &&& m.transform_buffer is Some ==> m.transform_buffer_offset is Some && m.transform_buffer_offset->0 % 16 == 0
                && m.transform_buffer_offset->0 + 48 <= g.buffers.data(m.transform_buffer->0).size
        }),
{
    lemma_first_err_none(entries, entry_buffer_check(g));
    assert(entry_buffer_check(g)(entries[k]) is None);
    lemma_first_err_none(entry_geometries(entries[k]), geometry_buffer_check(g));
    let m = entry_geometries(entries[k])[j];
    assert(geometry_buffer_check(g)(m) is None);
    assert(vertex_buffer_error(g, m) is None);
    assert((m.first_vertex + m.size.vertex_count) * m.vertex_stride == vertex_bytes_needed(m));
    assert(transform_buffer_error(g, m) is None);
    if m.index_buffer is Some && m.size.index_format is Some && m.first_index is Some && m.size.index_count is Some {
        assert(index_buffer_error(g, m) is None);
        let f: int = m.first_index->0 as int;
        let c: int = m.size.index_count->0 as int;
        let s: int = m.size.index_format->0.size() as int;
        assert((f + c) * s == c * s + f * s) by (nonlinear_arith);
        assert(index_bytes_needed(m) == (f + c) * s);
    }
}

/// The index buffer of a geometry must hold every index read, from index
/// `first_index` for `index_count` indices of the index format's size.  For a
/// geometry whose vertex buffer passes its checks and whose index buffer is
/// live, has the BLAS input usage and holds whole triangles, the buffer
/// checks fail with `InsufficientBufferSize`, naming the index buffer, its
/// size and `(first_index + index_count) * size`, exactly when the buffer is
/// smaller than that; otherwise the index buffer passes its checks.
pub proof fn lemma_index_buffer_must_hold_indices_read(g: Global, m: BlasTriangleGeometry)
    requires
        m.index_buffer is Some,
        m.first_index is Some,
        m.size.index_count is Some,
        m.size.index_format is Some,
        vertex_buffer_error(g, m) is None,
        !g.buffers.data(m.index_buffer->0).destroyed,
        contains_bits(g.buffers.data(m.index_buffer->0).usage, BUFFER_USAGE_BLAS_INPUT),
        m.size.index_count->0 % 3 == 0,
    ensures
        ({
            let b = m.index_buffer->0;
            let size = g.buffers.data(b).size;
            let needed = (m.first_index->0 + m.size.index_count->0) * m.size.index_format->0.size();
            if size < needed {
                geometry_buffer_error(g, m) == Some(
                    BuildAccelerationStructureError::InsufficientBufferSize { buffer: b, size, required: needed as u64 },
                )
            } else {
                index_buffer_error(g, m) is None
            }
        }),
{
    let f: int = m.first_index->0 as int;
    let c: int = m.size.index_count->0 as int;
    let s: int = m.size.index_format->0.size() as int;
    assert((f + c) * s == c * s + f * s) by (nonlinear_arith);
    assert(index_bytes_needed(m) == (f + c) * s);
}

} // verus!
