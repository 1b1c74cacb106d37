//! Creating, dropping and querying acceleration structures.
//!
//! The backend decides how much memory a structure needs and where it lives
//! on the device; those values are handed to the creation functions, which
//! validate the request and register the structure.

use vstd::prelude::*;
use crate::acceleration_structure::{
    Blas, BlasCompactState, BlasTriangleGeometrySizeDescriptor, Tlas, VertexFormat, has_flag,
    AS_FLAG_ALLOW_RAY_HIT_VERTEX_RETURN, AS_FLAG_USE_TRANSFORM, AS_FLAG_ALLOW_COMPACTION,
};
use crate::global::Global;
use crate::pass::{DeviceError, MissingFeature};
use crate::resource::{Features, InvalidResourceError, ResourceKind, Slot, registered_at};
use crate::rt_pipeline::registered_somehow;

verus! {

/// Size in bytes of the buffer that reads back a BLAS's compacted size (one
/// device address).
pub const COMPACTION_READBACK_SIZE: u64 = 8;

/// How an acceleration structure is meant to be rebuilt.
#[derive(Clone, Copy, Debug, PartialEq, Eq, Structural)]
pub enum AccelerationStructureUpdateMode {
    Build,
    PreferUpdate,
}

/// Describes a BLAS.
pub struct BlasDescriptor {
    pub label: Option<String>,
    /// Flags, as `wgpu_types::AccelerationStructureFlags`.
    pub flags: u8,
    pub update_mode: AccelerationStructureUpdateMode,
}

/// Describes a TLAS.
pub struct TlasDescriptor {
    pub label: Option<String>,
    pub max_instances: u32,
    /// Flags, as `wgpu_types::AccelerationStructureFlags`.
    pub flags: u8,
    pub update_mode: AccelerationStructureUpdateMode,
}

/// The sizes that the backend reports for an acceleration structure.
#[derive(Clone, Copy, Debug, PartialEq, Eq, Structural)]
pub struct AccelerationStructureBuildSizes {
    pub acceleration_structure_size: u64,
    pub build_scratch_size: u64,
    pub update_scratch_size: u64,
}

/// Errors of BLAS creation.
#[derive(Clone, Debug, PartialEq, Eq)]
pub enum CreateBlasError {
    Device(DeviceError),
    MissingFeature(MissingFeature),
    /// A geometry has an index count without an index format, or the reverse.
    MissingIndexData,
    /// A geometry's vertex format is not among those allowed, which are listed.
    InvalidVertexFormat(VertexFormat, Vec<VertexFormat>),
}

/// Errors of TLAS creation.
#[derive(Clone, Copy, Debug, PartialEq, Eq, Structural)]
pub enum CreateTlasError {
    Device(DeviceError),
    MissingFeature(MissingFeature),
    /// The flag may not be given to a TLAS.
    DisallowedFlag(u8),
}

/// The first failure of a BLAS creation, without the list of allowed
/// formats that `CreateBlasError::InvalidVertexFormat` carries.
#[derive(Clone, Copy, Debug, PartialEq, Eq, Structural)]
pub enum BlasCreationFailure {
    Device(DeviceError),
    MissingFeature(MissingFeature),
    MissingIndexData,
    InvalidVertexFormat(VertexFormat),
}

/// The vertex formats that BLASes may use on a device with `features`:
/// `Float32x3` with ray queries or ray tracing pipelines, and five more with
/// the extended vertex formats.
pub open spec fn allowed_blas_formats(features: Features) -> Seq<VertexFormat> {
    (if features.ray_query || features.ray_tracing_pipelines {
        seq![VertexFormat::Float32x3]
    } else {
        Seq::empty()
    }) + (if features.extended_acceleration_structure_vertex_formats {
        seq![
            VertexFormat::Float32x2,
            VertexFormat::Float16x2,
            VertexFormat::Float16x4,
            VertexFormat::Snorm16x2,
            VertexFormat::Snorm16x4,
        ]
    } else {
        Seq::empty()
    })
}

/// Returns `allowed_blas_formats(*features)`.
pub fn allowed_vertex_formats_for_blas(features: &Features) -> (r: Vec<VertexFormat>)
    ensures
        r@ == allowed_blas_formats(*features),
{
    let mut formats: Vec<VertexFormat> = Vec::new();
    if features.ray_query || features.ray_tracing_pipelines {
        formats.push(VertexFormat::Float32x3);
    }
    if features.extended_acceleration_structure_vertex_formats {
        formats.push(VertexFormat::Float32x2);
        formats.push(VertexFormat::Float16x2);
        formats.push(VertexFormat::Float16x4);
        formats.push(VertexFormat::Snorm16x2);
        formats.push(VertexFormat::Snorm16x4);
    }
    assert(formats@ =~= allowed_blas_formats(*features));
    formats
}

/// The checks of one geometry size of a BLAS: index data comes in pairs,
/// and the vertex format must be allowed.
pub open spec fn blas_size_failure(allowed: Seq<VertexFormat>, sd: BlasTriangleGeometrySizeDescriptor) -> Option<
    BlasCreationFailure,
> {
    if (sd.index_count is Some) != (sd.index_format is Some) {
        Some(BlasCreationFailure::MissingIndexData)
    } else if !allowed.contains(sd.vertex_format) {
        Some(BlasCreationFailure::InvalidVertexFormat(sd.vertex_format))
    } else {
        None
    }
}

/// The first failure among the geometry sizes `sizes`.
pub open spec fn blas_sizes_failure(allowed: Seq<VertexFormat>, sizes: Seq<BlasTriangleGeometrySizeDescriptor>) -> Option<
    BlasCreationFailure,
>
    decreases sizes.len(),
{
    if sizes.len() == 0 {
        None
    } else {
        match blas_sizes_failure(allowed, sizes.drop_last()) {
            Some(f) => Some(f),
            None => blas_size_failure(allowed, sizes.last()),
        }
    }
}

/// The first failure of creating a BLAS with `flags` and geometry sizes
/// `sizes` on `device`: the device must be valid and have acceleration
/// structures, vertex return needs its feature, then each size is checked.
pub open spec fn blas_creation_failure(
    device: crate::resource::Device,
    flags: u8,
    sizes: Seq<BlasTriangleGeometrySizeDescriptor>,
) -> Option<BlasCreationFailure> {
    if !device.valid {
        Some(BlasCreationFailure::Device(DeviceError::Invalid))
    } else if !device.features.ray_tracing_acceleration_structure {
        Some(BlasCreationFailure::MissingFeature(MissingFeature::RayTracingAccelerationStructure))
    } else if has_flag(flags, AS_FLAG_ALLOW_RAY_HIT_VERTEX_RETURN) && !device.features.ray_hit_vertex_return {
        Some(BlasCreationFailure::MissingFeature(MissingFeature::RayHitVertexReturn))
    } else {
        blas_sizes_failure(allowed_blas_formats(device.features), sizes)
    }
}

/// The failure of creating a BLAS: that of the request, or else what the
/// backend reported when it created the structure and its buffers.
pub open spec fn blas_outcome_failure(
    device: crate::resource::Device,
    flags: u8,
    sizes: Seq<BlasTriangleGeometrySizeDescriptor>,
    backend_error: Option<DeviceError>,
) -> Option<BlasCreationFailure> {
    match blas_creation_failure(device, flags, sizes) {
        Some(f) => Some(f),
        None => match backend_error {
            Some(e) => Some(BlasCreationFailure::Device(e)),
            None => None,
        },
    }
}

/// The failure of creating a TLAS: that of the request, or else what the
/// backend reported when it created the structure and its instance buffer.
pub open spec fn tlas_outcome_failure(device: crate::resource::Device, flags: u8, backend_error: Option<DeviceError>) -> Option<
    CreateTlasError,
> {
    match tlas_creation_failure(device, flags) {
        Some(e) => Some(e),
        None => match backend_error {
            Some(e) => Some(CreateTlasError::Device(e)),
            None => None,
        },
    }
}

/// `e` is the error that reports failure `f` on a device with `features`.
pub open spec fn reports_blas_failure(e: CreateBlasError, f: BlasCreationFailure, features: Features) -> bool {
    match f {
        BlasCreationFailure::Device(d) => e == CreateBlasError::Device(d),
        BlasCreationFailure::MissingFeature(m) => e == CreateBlasError::MissingFeature(m),
        BlasCreationFailure::MissingIndexData => e == CreateBlasError::MissingIndexData,
        BlasCreationFailure::InvalidVertexFormat(v) => e matches CreateBlasError::InvalidVertexFormat(w, allowed) && w == v
            && allowed@ == allowed_blas_formats(features),
    }
}

/// The first failure of creating a TLAS with `flags` on `device`.
pub open spec fn tlas_creation_failure(device: crate::resource::Device, flags: u8) -> Option<CreateTlasError> {
    if !device.valid {
        Some(CreateTlasError::Device(DeviceError::Invalid))
    } else if !device.features.ray_tracing_acceleration_structure {
        Some(CreateTlasError::MissingFeature(MissingFeature::RayTracingAccelerationStructure))
    } else if has_flag(flags, AS_FLAG_USE_TRANSFORM) {
        Some(CreateTlasError::DisallowedFlag(AS_FLAG_USE_TRANSFORM))
    } else if has_flag(flags, AS_FLAG_ALLOW_RAY_HIT_VERTEX_RETURN) && !device.features.ray_hit_vertex_return {
        Some(CreateTlasError::MissingFeature(MissingFeature::RayHitVertexReturn))
    } else {
        None
    }
}

/// Every vertex format that BLASes may use on some device is one that
/// acceleration structures hold.
proof fn lemma_allowed_formats_are_blas_formats(features: Features)
    ensures
        forall|i: int| 0 <= i < allowed_blas_formats(features).len() ==> (#[trigger] allowed_blas_formats(features)[i]).is_blas_format(),
{
}

/// Returns the first failure of the geometry sizes `sizes`, reported as an
/// error on a device with `features`.
fn check_blas_sizes(features: &Features, sizes: &Vec<BlasTriangleGeometrySizeDescriptor>) -> (r: Option<CreateBlasError>)
    ensures
        match blas_sizes_failure(allowed_blas_formats(*features), sizes@) {
            None => r is None,
            Some(f) => r matches Some(e) && reports_blas_failure(e, f, *features),
        },
{
    let allowed = allowed_vertex_formats_for_blas(features);
    let ghost a = allowed@;
    let mut k: usize = 0;
    assert(sizes@.take(0) =~= Seq::<BlasTriangleGeometrySizeDescriptor>::empty());
    while k < sizes.len()
        invariant
            k <= sizes@.len(),
            allowed@ == a,
            a == allowed_blas_formats(*features),
            blas_sizes_failure(a, sizes@.take(k as int)) is None,
        decreases sizes@.len() - k,
    {
        let sd = sizes[k];
        assert(sizes@.take(k as int + 1).drop_last() =~= sizes@.take(k as int));
        assert(sizes@.take(k as int + 1).last() == sd);
        let failure = if sd.index_count.is_some() != sd.index_format.is_some() {
            Some(CreateBlasError::MissingIndexData)
        } else {
            let mut found = false;
            let mut j: usize = 0;
            while j < allowed.len()
                invariant
                    j <= allowed@.len(),
                    allowed@ == a,
                    found <==> exists|i: int| 0 <= i < j && allowed@[i] == sd.vertex_format,
                decreases allowed@.len() - j,
            {
                if allowed[j] == sd.vertex_format {
                    found = true;
                }
                j = j + 1;
            }
            assert(found <==> a.contains(sd.vertex_format));
            if found {
                None
            } else {
                Some(CreateBlasError::InvalidVertexFormat(sd.vertex_format, allowed_vertex_formats_for_blas(features)))
            }
        };
        if failure.is_some() {
            proof {
                lemma_sizes_failure_persists(a, sizes@, k as int + 1);
            }
            return failure;
        }
        k = k + 1;
    }
    assert(sizes@.take(sizes@.len() as int) =~= sizes@);
    None
}

/// Once a prefix of the sizes fails, all of them fail the same way.
proof fn lemma_sizes_failure_persists(a: Seq<VertexFormat>, sizes: Seq<BlasTriangleGeometrySizeDescriptor>, i: int)
    requires
        0 <= i <= sizes.len(),
        blas_sizes_failure(a, sizes.take(i)) is Some,
    ensures
        blas_sizes_failure(a, sizes) == blas_sizes_failure(a, sizes.take(i)),
    decreases sizes.len() - i,
{
    if i == sizes.len() {
        assert(sizes.take(i) =~= sizes);
    } else {
        assert(sizes.take(i + 1).drop_last() =~= sizes.take(i));
        lemma_sizes_failure_persists(a, sizes, i + 1);
    }
}

/// Sizes without a failure have paired index data and allowed formats.
proof fn lemma_sizes_ok(a: Seq<VertexFormat>, sizes: Seq<BlasTriangleGeometrySizeDescriptor>)
    requires
        blas_sizes_failure(a, sizes) is None,
    ensures
        forall|j: int|
            0 <= j < sizes.len() ==> a.contains((#[trigger] sizes[j]).vertex_format) && (sizes[j].index_count is Some
                <==> sizes[j].index_format is Some),
    decreases sizes.len(),
{
    if sizes.len() > 0 {
        lemma_sizes_ok(a, sizes.drop_last());
        assert forall|j: int| 0 <= j < sizes.len() - 1 implies sizes[j] == sizes.drop_last()[j] by {}
    }
}

/// Sizes whose index data comes in pairs and whose formats are all allowed
/// have no failure.
proof fn lemma_sizes_all_ok(a: Seq<VertexFormat>, sizes: Seq<BlasTriangleGeometrySizeDescriptor>)
    requires
        forall|j: int|
            0 <= j < sizes.len() ==> a.contains((#[trigger] sizes[j]).vertex_format) && (sizes[j].index_count is Some
                <==> sizes[j].index_format is Some),
    ensures
        blas_sizes_failure(a, sizes) is None,
    decreases sizes.len(),
{
    if sizes.len() > 0 {
        assert forall|j: int| 0 <= j < sizes.len() - 1 implies sizes.drop_last()[j] == sizes[j] by {}
        lemma_sizes_all_ok(a, sizes.drop_last());
        assert(sizes.last() == sizes[sizes.len() - 1]);
    }
}

/// `Float32x3` is a vertex format that BLASes may use on every device with
/// ray queries or with ray tracing pipelines.
pub proof fn lemma_float32x3_allowed_with_ray_tracing(features: Features)
    requires
        features.ray_query || features.ray_tracing_pipelines,
    ensures
        allowed_blas_formats(features).contains(VertexFormat::Float32x3),
{
    assert(allowed_blas_formats(features)[0] == VertexFormat::Float32x3);
}

/// A vertex format may be used by BLASes exactly when it is `Float32x3` on
/// a device with ray queries or ray tracing pipelines, or one of `Float32x2`,
/// `Float16x2`, `Float16x4`, `Snorm16x2` and `Snorm16x4` on a device with
/// the extended vertex formats.
pub proof fn lemma_allowed_blas_format_members(features: Features, v: VertexFormat)
    ensures
        allowed_blas_formats(features).contains(v) <==> {
            ||| v == VertexFormat::Float32x3 && (features.ray_query || features.ray_tracing_pipelines)
            ||| features.extended_acceleration_structure_vertex_formats && (v == VertexFormat::Float32x2 || v
                == VertexFormat::Float16x2 || v == VertexFormat::Float16x4 || v == VertexFormat::Snorm16x2 || v
                == VertexFormat::Snorm16x4)
        },
{
    let a = allowed_blas_formats(features);
    let first: Seq<VertexFormat> = if features.ray_query || features.ray_tracing_pipelines {
        seq![VertexFormat::Float32x3]
    } else {
        Seq::empty()
    };
    let rest: Seq<VertexFormat> = if features.extended_acceleration_structure_vertex_formats {
        seq![
            VertexFormat::Float32x2,
            VertexFormat::Float16x2,
            VertexFormat::Float16x4,
            VertexFormat::Snorm16x2,
            VertexFormat::Snorm16x4,
        ]
    } else {
        Seq::empty()
    };
    assert(a == first + rest);
    if a.contains(v) {
        let i = choose|i: int| 0 <= i < a.len() && a[i] == v;
        if i < first.len() {
            assert(a[i] == first[i]);
        } else {
            assert(a[i] == rest[i - first.len()]);
        }
    }
    if v == VertexFormat::Float32x3 && (features.ray_query || features.ray_tracing_pipelines) {
        assert(a[0] == v);
    }
    if features.extended_acceleration_structure_vertex_formats {
        let k: int = first.len() as int;
        assert(a[k] == VertexFormat::Float32x2);
        assert(a[k + 1] == VertexFormat::Float16x2);
        assert(a[k + 2] == VertexFormat::Float16x4);
        assert(a[k + 3] == VertexFormat::Snorm16x2);
        assert(a[k + 4] == VertexFormat::Snorm16x4);
    }
}

/// On a valid device with acceleration structures and with ray queries or
/// ray tracing pipelines, a BLAS without vertex return whose geometry sizes
/// all use `Float32x3` and give an index format exactly when they give an
/// index count is created without a failure.
pub proof fn lemma_float32x3_blas_is_created(
    device: crate::resource::Device,
    flags: u8,
    sizes: Seq<BlasTriangleGeometrySizeDescriptor>,
)
    requires
        device.valid,
        device.features.ray_tracing_acceleration_structure,
        device.features.ray_query || device.features.ray_tracing_pipelines,
        !has_flag(flags, AS_FLAG_ALLOW_RAY_HIT_VERTEX_RETURN),
        forall|j: int|
            0 <= j < sizes.len() ==> (#[trigger] sizes[j]).vertex_format == VertexFormat::Float32x3 && (
            sizes[j].index_count is Some <==> sizes[j].index_format is Some),
    ensures
        blas_creation_failure(device, flags, sizes) is None,
{
    lemma_float32x3_allowed_with_ray_tracing(device.features);
    lemma_sizes_all_ok(allowed_blas_formats(device.features), sizes);
}

/// Errors when preparing a BLAS for compaction.
#[derive(Clone, Copy, Debug, PartialEq, Eq)]
pub enum BlasPrepareCompactError {
    Device(DeviceError),
    InvalidResource(InvalidResourceError),
    /// The BLAS has not been built.
    NotBuilt,
    /// The BLAS was created without `AS_FLAG_ALLOW_COMPACTION`.
    CompactionUnsupported,
    /// The BLAS is itself the result of a compaction.
    DoubleCompaction,
    /// The compaction is already being prepared, or is prepared.
    CompactionPreparingAlready,
}

/// Why BLAS `blas_id` cannot be prepared for compaction, in the order of
/// the checks: it must be valid, its device valid, it must be built, allow
/// compaction, and have no compaction prepared or made.
pub open spec fn prepare_compact_error(g: Global, blas_id: usize) -> Option<BlasPrepareCompactError> {
    let b = g.blas_s.data(blas_id);
    if !g.blas_s.is_valid(blas_id) {
        Some(BlasPrepareCompactError::InvalidResource(InvalidResourceError { kind: ResourceKind::Blas, id: blas_id }))
    } else if !g.devices@[b.device as int].valid {
        Some(BlasPrepareCompactError::Device(DeviceError::Invalid))
    } else if b.built_index is None {
        Some(BlasPrepareCompactError::NotBuilt)
    } else if !has_flag(b.flags, AS_FLAG_ALLOW_COMPACTION) {
        Some(BlasPrepareCompactError::CompactionUnsupported)
    } else {
        match b.compacted_state {
            BlasCompactState::Compacted => Some(BlasPrepareCompactError::DoubleCompaction),
            BlasCompactState::Idle => None,
            _ => Some(BlasPrepareCompactError::CompactionPreparingAlready),
        }
    }
}

impl Global {
    /// Creates a BLAS on device `device_id` and registers it, under `id_in`
    /// when the caller chose an id and under a new id otherwise; the id is
    /// returned with the BLAS's device address.  `build_sizes` and `handle`
    /// are what the backend reports for the structure; they are used when
    /// the request is valid.  A BLAS that allows compaction gets a buffer of
    /// `COMPACTION_READBACK_SIZE` bytes to read its compacted size back.  An
    /// invalid request registers the id as invalid and returns the error, as
    /// `blas_outcome_failure` says: `backend_error` is what the backend
    /// reported when it created the structure and its buffers.
    pub fn device_create_blas(
        &mut self,
        device_id: usize,
        desc: &BlasDescriptor,
        sizes: Vec<BlasTriangleGeometrySizeDescriptor>,
        build_sizes: AccelerationStructureBuildSizes,
        handle: u64,
        backend_error: Option<DeviceError>,
        id_in: Option<usize>,
    ) -> (r: (usize, Option<u64>, Option<CreateBlasError>))
        requires
            old(self).well_formed(),
            device_id < old(self).devices@.len(),
            old(self).blas_s.slots@.len() < usize::MAX,
            id_in is Some ==> old(self).blas_s.is_free(id_in->0) && id_in->0 < usize::MAX,
        ensures
            final(self).well_formed(),
            r.0 == match id_in {
                Some(i) => i,
                None => old(self).blas_s.slots@.len() as usize,
            },
            *final(self) == (Global { blas_s: final(self).blas_s, ..*old(self) }),
            match blas_outcome_failure(old(self).devices@[device_id as int], desc.flags, sizes@, backend_error) {
                None => {
                    &&& r.1 == Some(handle)
                    &&& r.2 is None
                    &&& final(self).blas_s.slots@ == registered_at(
                        old(self).blas_s.slots@,
                        r.0 as int,
                        Some(
                            Blas {
                                device: device_id,
                                sizes,
                                flags: desc.flags,
                                handle,
                                build_scratch_size: build_sizes.build_scratch_size,
                                built_index: None,
                                compacted_state: BlasCompactState::Idle,
                                destroyed: false,
                                label: desc.label,
                                update_mode: desc.update_mode,
                                compaction_buffer_size: if desc.flags & AS_FLAG_ALLOW_COMPACTION == AS_FLAG_ALLOW_COMPACTION {
                                    Some(COMPACTION_READBACK_SIZE)
                                } else {
                                    None
                                },
                            },
                        ),
                    )
                },
                Some(f) => {
                    &&& r.1 is None
                    &&& r.2 matches Some(e) && reports_blas_failure(e, f, old(self).devices@[device_id as int].features)
                    &&& final(self).blas_s.slots@ == registered_at(old(self).blas_s.slots@, r.0 as int, None)
                },
            },
    {
        let device = self.devices[device_id];
        let id = match id_in {
            Some(i) => i,
            None => self.blas_s.slots.len(),
        };
        let error = if !device.valid {
            Some(CreateBlasError::Device(DeviceError::Invalid))
        } else if !device.features.ray_tracing_acceleration_structure {
            Some(CreateBlasError::MissingFeature(MissingFeature::RayTracingAccelerationStructure))
        } else if desc.flags & AS_FLAG_ALLOW_RAY_HIT_VERTEX_RETURN == AS_FLAG_ALLOW_RAY_HIT_VERTEX_RETURN
            && !device.features.ray_hit_vertex_return {
            Some(CreateBlasError::MissingFeature(MissingFeature::RayHitVertexReturn))
        } else {
            match check_blas_sizes(&device.features, &sizes) {
                Some(e) => Some(e),
                None => match backend_error {
                    Some(e) => Some(CreateBlasError::Device(e)),
                    None => None,
                },
            }
        };
        let ghost old_g = *self;
        match error {
            Some(e) => {
                self.blas_s.register_at(id, None);
                proof {
                    assert forall|i: usize| #[trigger] self.blas_s.holds(i) implies old_g.blas_s.holds(i) && self.blas_s.data(i)
                        == old_g.blas_s.data(i) by {}
                    assert forall|i: usize| #[trigger] old_g.blas_s.holds(i) implies self.blas_s.holds(i) by {}
                }
                (id, None, Some(e))
            },
            None => {
                proof {
                    lemma_sizes_ok(allowed_blas_formats(device.features), sizes@);
                    lemma_allowed_formats_are_blas_formats(device.features);
                }
                let ghost sizes_view = sizes;
                let label = match &desc.label {
                    Some(l) => Some(l.clone()),
                    None => None,
                };
                let compaction_buffer_size = if desc.flags & AS_FLAG_ALLOW_COMPACTION == AS_FLAG_ALLOW_COMPACTION {
                    Some(COMPACTION_READBACK_SIZE)
                } else {
                    None
                };
                let blas = Blas {
                    device: device_id,
                    sizes,
                    flags: desc.flags,
                    handle,
                    build_scratch_size: build_sizes.build_scratch_size,
                    built_index: None,
                    compacted_state: BlasCompactState::Idle,
                    destroyed: false,
                    label,
                    update_mode: desc.update_mode,
                    compaction_buffer_size,
                };
                self.blas_s.register_at(id, Some(blas));
                proof {
                    assert forall|i: usize| #[trigger] self.blas_s.holds(i) && i != id implies old_g.blas_s.holds(i)
                        && self.blas_s.data(i) == old_g.blas_s.data(i) by {}
                    assert forall|i: usize| #[trigger] old_g.blas_s.holds(i) implies self.blas_s.holds(i) by {}
                    let a = allowed_blas_formats(device.features);
                    assert forall|j: int| 0 <= j < sizes_view@.len() implies ({
                        let sd = #[trigger] sizes_view@[j];
                        &&& sd.vertex_format.is_blas_format()
                        &&& (sd.index_count is Some <==> sd.index_format is Some)
                    }) by {
                        let sd = sizes_view@[j];
                        assert(a.contains(sd.vertex_format));
                        let k = choose|k: int| 0 <= k < a.len() && a[k] == sd.vertex_format;
                        assert(a[k].is_blas_format());
                    }
                }
                (id, Some(handle), None)
            },
        }
    }

    /// Creates a TLAS on device `device_id` for at most `desc.max_instances`
    /// instances and registers it, under `id_in` when the caller chose an id
    /// and under a new id otherwise.  `build_sizes` is what the backend
    /// reports for the structure.  The TLAS gets an instance buffer of
    /// `raw_tlas_instance_size` bytes for each instance, and at least one.
    /// An invalid request registers the id as invalid and returns the error,
    /// as `tlas_outcome_failure` says: `backend_error` is what the backend
    /// reported when it created the structure and its instance buffer.
    pub fn device_create_tlas(
        &mut self,
        device_id: usize,
        desc: &TlasDescriptor,
        build_sizes: AccelerationStructureBuildSizes,
        backend_error: Option<DeviceError>,
        id_in: Option<usize>,
    ) -> (r: (usize, Option<CreateTlasError>))
        requires
            old(self).well_formed(),
            device_id < old(self).devices@.len(),
            old(self).tlas_s.slots@.len() < usize::MAX,
            id_in is Some ==> old(self).tlas_s.is_free(id_in->0) && id_in->0 < usize::MAX,
            tlas_creation_failure(old(self).devices@[device_id as int], desc.flags) is None ==> old(self).devices@[device_id as int].raw_tlas_instance_size
                * (if desc.max_instances > 1 { desc.max_instances } else { 1 }) <= usize::MAX,
        ensures
            final(self).well_formed(),
            r.0 == match id_in {
                Some(i) => i,
                None => old(self).tlas_s.slots@.len() as usize,
            },
            *final(self) == (Global { tlas_s: final(self).tlas_s, ..*old(self) }),
            r.1 == tlas_outcome_failure(old(self).devices@[device_id as int], desc.flags, backend_error),
            registered_somehow(final(self).tlas_s.slots@, old(self).tlas_s.slots@, r.0 as int),
            r.1 is Some ==> final(self).tlas_s.slots@[r.0 as int].resource is None,
            r.1 is None ==> (final(self).tlas_s.slots@[r.0 as int].resource matches Some(t) && t == (Tlas {
                device: device_id,
                flags: desc.flags,
                build_scratch_size: build_sizes.build_scratch_size,
                max_instance_count: desc.max_instances,
                built_index: None,
                dependencies: t.dependencies,
                destroyed: false,
                label: desc.label,
                update_mode: desc.update_mode,
                instance_buffer_size: (old(self).devices@[device_id as int].raw_tlas_instance_size * (if desc.max_instances
                    > 1 { desc.max_instances } else { 1 })) as u64,
            }) && t.dependencies@.len() == 0),
    {
        let device = self.devices[device_id];
        let id = match id_in {
            Some(i) => i,
            None => self.tlas_s.slots.len(),
        };
        let error = if !device.valid {
            Some(CreateTlasError::Device(DeviceError::Invalid))
        } else if !device.features.ray_tracing_acceleration_structure {
            Some(CreateTlasError::MissingFeature(MissingFeature::RayTracingAccelerationStructure))
        } else if desc.flags & AS_FLAG_USE_TRANSFORM == AS_FLAG_USE_TRANSFORM {
            Some(CreateTlasError::DisallowedFlag(AS_FLAG_USE_TRANSFORM))
        } else if desc.flags & AS_FLAG_ALLOW_RAY_HIT_VERTEX_RETURN == AS_FLAG_ALLOW_RAY_HIT_VERTEX_RETURN
            && !device.features.ray_hit_vertex_return {
            Some(CreateTlasError::MissingFeature(MissingFeature::RayHitVertexReturn))
        } else {
            match backend_error {
                Some(e) => Some(CreateTlasError::Device(e)),
                None => None,
            }
        };
        let ghost old_g = *self;
        let resource = match error {
            Some(_) => None,
            None => {
                let count: u64 = if desc.max_instances > 1 { desc.max_instances as u64 } else { 1 };
                assert(device.raw_tlas_instance_size * count <= u64::MAX);
                let label = match &desc.label {
                    Some(l) => Some(l.clone()),
                    None => None,
                };
                Some(
                    Tlas {
                        device: device_id,
                        flags: desc.flags,
                        build_scratch_size: build_sizes.build_scratch_size,
                        max_instance_count: desc.max_instances,
                        built_index: None,
                        dependencies: Vec::new(),
                        destroyed: false,
                        label,
                        update_mode: desc.update_mode,
                        instance_buffer_size: device.raw_tlas_instance_size * count,
                    },
                )
            },
        };
        self.tlas_s.register_at(id, resource);
        proof {
            assert forall|i: usize| #[trigger] self.tlas_s.holds(i) && i != id implies old_g.tlas_s.holds(i) && self.tlas_s.data(i)
                == old_g.tlas_s.data(i) by {}
            assert forall|i: usize| #[trigger] old_g.tlas_s.holds(i) implies self.tlas_s.holds(i) by {}
        }
        (id, error)
    }

    /// Drops the id of a BLAS: it can no longer be looked up, while
    /// encoders and TLASes that refer to it keep it.
    pub fn blas_drop(&mut self, blas_id: usize)
        requires
            old(self).blas_s.has_id(blas_id),
        ensures
            *final(self) == (Global { blas_s: final(self).blas_s, ..*old(self) }),
            final(self).blas_s.slots@ == old(self).blas_s.slots@.update(
                blas_id as int,
                Slot { registered: false, ..old(self).blas_s.slots@[blas_id as int] },
            ),
    {
        self.blas_s.unregister(blas_id);
        assert(self.blas_s.slots@ =~= old(self).blas_s.slots@.update(
            blas_id as int,
            Slot { registered: false, ..old(self).blas_s.slots@[blas_id as int] },
        ));
    }

    /// Drops the id of a TLAS: it can no longer be looked up, while
    /// encoders that refer to it keep it.
    pub fn tlas_drop(&mut self, tlas_id: usize)
        requires
            old(self).tlas_s.has_id(tlas_id),
        ensures
            *final(self) == (Global { tlas_s: final(self).tlas_s, ..*old(self) }),
            final(self).tlas_s.slots@ == old(self).tlas_s.slots@.update(
                tlas_id as int,
                Slot { registered: false, ..old(self).tlas_s.slots@[tlas_id as int] },
            ),
    {
        self.tlas_s.unregister(tlas_id);
        assert(self.tlas_s.slots@ =~= old(self).tlas_s.slots@.update(
            tlas_id as int,
            Slot { registered: false, ..old(self).tlas_s.slots@[tlas_id as int] },
        ));
    }

    /// Prepares BLAS `blas_id` for compaction: its compacted size is to be
    /// read back after the submission `submission_index`, which the device's
    /// queue reports.  The BLAS must be valid, on a valid device, built,
    /// created with `AS_FLAG_ALLOW_COMPACTION`, and neither compacted nor
    /// already being prepared, as `prepare_compact_error` says in order.  On
    /// success the BLAS waits for its compacted size and `submission_index`
    /// is returned; on an error nothing changes, the error is returned, and
    /// it is also handed to the callback when there is one (`has_callback`).
    pub fn blas_prepare_compact_async(&mut self, blas_id: usize, has_callback: bool, submission_index: u64) -> (r: (
        Result<u64, BlasPrepareCompactError>,
        Option<BlasPrepareCompactError>,
    ))
        requires
            old(self).well_formed(),
            old(self).blas_s.has_id(blas_id),
        ensures
            final(self).well_formed(),
            match prepare_compact_error(*old(self), blas_id) {
                Some(e) => {
                    &&& r.0 == Err::<u64, _>(e)
                    &&& r.1 == (if has_callback { Some(e) } else { None })
                    &&& *final(self) == *old(self)
                },
                None => {
                    &&& r.0 == Ok::<u64, BlasPrepareCompactError>(submission_index)
                    &&& r.1 is None
                    &&& *final(self) == (Global { blas_s: final(self).blas_s, ..*old(self) })
                    &&& final(self).blas_s.slots@ == old(self).blas_s.slots@.update(
                        blas_id as int,
                        Slot {
                            resource: Some(Blas { compacted_state: BlasCompactState::Waiting, ..old(self).blas_s.data(blas_id) }),
                            registered: true,
                        },
                    )
                },
            },
    {
        let error = match self.blas_s.get(blas_id, ResourceKind::Blas) {
            Err(e) => Some(BlasPrepareCompactError::InvalidResource(e)),
            Ok(blas) => {
                assert(self.blas_s.holds(blas_id));
                if !self.devices[blas.device].valid {
                    Some(BlasPrepareCompactError::Device(DeviceError::Invalid))
                } else if blas.built_index.is_none() {
                    Some(BlasPrepareCompactError::NotBuilt)
                } else if blas.flags & AS_FLAG_ALLOW_COMPACTION != AS_FLAG_ALLOW_COMPACTION {
                    Some(BlasPrepareCompactError::CompactionUnsupported)
                } else {
                    match blas.compacted_state {
                        BlasCompactState::Compacted => Some(BlasPrepareCompactError::DoubleCompaction),
                        BlasCompactState::Waiting => Some(BlasPrepareCompactError::CompactionPreparingAlready),
                        BlasCompactState::Ready { size: _ } => Some(BlasPrepareCompactError::CompactionPreparingAlready),
                        BlasCompactState::Idle => None,
                    }
                }
            },
        };
        match error {
            Some(e) => {
                let cb = if has_callback { Some(e) } else { None };
                (Err(e), cb)
            },
            None => {
                let ghost old_g = *self;
                let slot = self.blas_s.slots.remove(blas_id);
                let Slot { resource, registered } = slot;
                let b = resource.unwrap();
                let Blas {
                    device,
                    sizes,
                    flags,
                    handle,
                    build_scratch_size,
                    built_index,
                    compacted_state: _,
                    destroyed,
                    label,
                    update_mode,
                    compaction_buffer_size,
                } = b;
                let nb = Blas {
                    device,
                    sizes,
                    flags,
                    handle,
                    build_scratch_size,
                    built_index,
                    compacted_state: BlasCompactState::Waiting,
                    destroyed,
                    label,
                    update_mode,
                    compaction_buffer_size,
                };
                self.blas_s.slots.insert(blas_id, Slot { resource: Some(nb), registered });
                assert(self.blas_s.slots@ =~= old_g.blas_s.slots@.update(
                    blas_id as int,
                    Slot {
                        resource: Some(Blas { compacted_state: BlasCompactState::Waiting, ..old_g.blas_s.data(blas_id) }),
                        registered: true,
                    },
                ));
                proof {
                    assert forall|i: usize| #[trigger] self.blas_s.holds(i) implies old_g.blas_s.holds(i)
                        && self.blas_s.data(i).device == old_g.blas_s.data(i).device
                        && self.blas_s.data(i).sizes == old_g.blas_s.data(i).sizes by {}
                    assert forall|i: usize| #[trigger] old_g.blas_s.holds(i) implies self.blas_s.holds(i) by {}
                }
                (Ok(submission_index), None)
            },
        }
    }

    /// Whether the compacted size of BLAS `blas_id` is known, so that it can
    /// be compacted; fails on an invalid BLAS.
    pub fn ready_for_compaction(&self, blas_id: usize) -> (r: Result<bool, InvalidResourceError>)
        requires
            self.blas_s.has_id(blas_id),
        ensures
            !self.blas_s.is_valid(blas_id) ==> r == Err::<bool, _>(InvalidResourceError { kind: ResourceKind::Blas, id: blas_id }),
            self.blas_s.is_valid(blas_id) ==> r == Ok::<bool, InvalidResourceError>(
                self.blas_s.data(blas_id).compacted_state is Ready,
            ),
    {
        let blas = self.blas_s.get(blas_id, ResourceKind::Blas)?;
        Ok(matches!(blas.compacted_state, BlasCompactState::Ready { .. }))
    }
}

} // verus!
