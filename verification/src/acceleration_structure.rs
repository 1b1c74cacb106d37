//! Bottom and top level acceleration structures, and the record of which of
//! them an encoder builds and uses.

use vstd::prelude::*;
use crate::resource::{InvalidResourceError, ResourceKind};
use crate::pass::MissingFeature;
use crate::as_create::AccelerationStructureUpdateMode;

verus! {

/// Acceleration structure flag: the structure may be compacted.
pub const AS_FLAG_ALLOW_COMPACTION: u8 = 2;
/// Acceleration structure flag: BLAS geometries carry a transform buffer.
pub const AS_FLAG_USE_TRANSFORM: u8 = 32;
/// Acceleration structure flag: ray hits may return vertex positions.
pub const AS_FLAG_ALLOW_RAY_HIT_VERTEX_RETURN: u8 = 64;

/// `flags` holds every bit of `flag`.
pub open spec fn has_flag(flags: u8, flag: u8) -> bool {
    flags & flag == flag
}

/// How far the compaction of a BLAS has gone.
#[derive(Clone, Copy, Debug, PartialEq, Eq, Structural)]
pub enum BlasCompactState {
    /// No compaction prepared.
    Idle,
    /// Waiting for the compacted size to be read back.
    Waiting,
    /// The compacted size is known.
    Ready { size: u64 },
    /// The BLAS is the result of a compaction.
    Compacted,
}

/// Vertex formats, with those that acceleration structures accept named.
#[derive(Clone, Copy, Debug, PartialEq, Eq, Structural)]
pub enum VertexFormat {
    Float32x3,
    Float32x2,
    Float16x2,
    Float16x4,
    Snorm16x2,
    Snorm16x4,
    /// Any other vertex format, by its `wgpu_types::VertexFormat` number.
    Other(u32),
}

impl VertexFormat {
    /// The format may hold the vertices of an acceleration structure.
    pub open spec fn is_blas_format(self) -> bool {
        !(self is Other)
    }

    /// The smallest vertex stride that acceleration structures accept for
    /// the format.
    pub open spec fn min_as_stride(self) -> u64 {
        match self {
            VertexFormat::Float16x2 | VertexFormat::Snorm16x2 => 4,
            VertexFormat::Float32x3 => 12,
            VertexFormat::Float32x2 => 8,
            VertexFormat::Float16x4 | VertexFormat::Snorm16x4 => 6,
            VertexFormat::Other(_) => 0,
        }
    }

    /// The alignment that acceleration structures require of the vertex
    /// stride for the format.
    pub open spec fn as_stride_alignment(self) -> u64 {
        match self {
            VertexFormat::Float16x4 | VertexFormat::Float16x2 | VertexFormat::Snorm16x4 | VertexFormat::Snorm16x2 => 2,
            VertexFormat::Float32x2 | VertexFormat::Float32x3 => 4,
            VertexFormat::Other(_) => 0,
        }
    }

    /// Returns `self.min_as_stride()`.
    pub fn min_acceleration_structure_vertex_stride(&self) -> (r: u64)
        requires
            self.is_blas_format(),
        ensures
            r == self.min_as_stride(),
    {
        match self {
            VertexFormat::Float16x2 | VertexFormat::Snorm16x2 => 4,
            VertexFormat::Float32x3 => 12,
            VertexFormat::Float32x2 => 8,
            VertexFormat::Float16x4 | VertexFormat::Snorm16x4 => 6,
            VertexFormat::Other(_) => 0,
        }
    }

    /// Returns `self.as_stride_alignment()`.
    pub fn acceleration_structure_stride_alignment(&self) -> (r: u64)
        requires
            self.is_blas_format(),
        ensures
            r == self.as_stride_alignment(),
            r > 0,
    {
        match self {
            VertexFormat::Float16x4 | VertexFormat::Float16x2 | VertexFormat::Snorm16x4 | VertexFormat::Snorm16x2 => 2,
            VertexFormat::Float32x2 | VertexFormat::Float32x3 => 4,
            VertexFormat::Other(_) => 0,
        }
    }
}

/// Index formats.
#[derive(Clone, Copy, Debug, PartialEq, Eq, Structural)]
pub enum IndexFormat {
    Uint16,
    Uint32,
}

impl IndexFormat {
    /// The size of one index in bytes.
    pub open spec fn size(self) -> u32 {
        match self {
            IndexFormat::Uint16 => 2,
            IndexFormat::Uint32 => 4,
        }
    }

    /// Returns `self.size()`.
    pub fn byte_size(&self) -> (r: u32)
        ensures
            r == self.size(),
    {
        match self {
            IndexFormat::Uint16 => 2,
            IndexFormat::Uint32 => 4,
        }
    }
}

/// The size of one triangle geometry of a BLAS.
#[derive(Clone, Copy, Debug, PartialEq, Eq, Structural)]
pub struct BlasTriangleGeometrySizeDescriptor {
    pub vertex_format: VertexFormat,
    pub vertex_count: u32,
    pub index_format: Option<IndexFormat>,
    pub index_count: Option<u32>,
    /// Geometry flags, as `wgpu_types::AccelerationStructureGeometryFlags`.
    pub flags: u8,
}

/// A bottom level acceleration structure.
#[derive(Clone, Debug, PartialEq, Eq)]
pub struct Blas {
    pub device: usize,
    /// The size of each triangle geometry it was created for.
    pub sizes: Vec<BlasTriangleGeometrySizeDescriptor>,
    /// Flags, as `wgpu_types::AccelerationStructureFlags`.
    pub flags: u8,
    /// The device address that TLAS instances refer to.
    pub handle: u64,
    /// Scratch space a build needs, in bytes.
    pub build_scratch_size: u64,
    /// The index of the submitted build command that last built it.
    pub built_index: Option<u64>,
    pub compacted_state: BlasCompactState,
    /// The structure has been destroyed.
    pub destroyed: bool,
    pub label: Option<String>,
    pub update_mode: AccelerationStructureUpdateMode,
    /// The size of the buffer that reads back the compacted size, for a BLAS
    /// that allows compaction.
    pub compaction_buffer_size: Option<u64>,
}

/// A top level acceleration structure.
#[derive(Clone, Debug, PartialEq, Eq)]
pub struct Tlas {
    pub device: usize,
    /// Flags, as `wgpu_types::AccelerationStructureFlags`.
    pub flags: u8,
    /// Scratch space a build needs, in bytes.
    pub build_scratch_size: u64,
    pub max_instance_count: u32,
    /// The index of the submitted build command that last built it.
    pub built_index: Option<u64>,
    /// The BLASes that its last build referenced.
    pub dependencies: Vec<usize>,
    /// The structure has been destroyed.
    pub destroyed: bool,
    pub label: Option<String>,
    pub update_mode: AccelerationStructureUpdateMode,
    /// The size of the buffer that holds the instances of a build.
    pub instance_buffer_size: u64,
}

/// One TLAS built by a build command, with the BLASes its instances refer to.
#[derive(Clone, Debug, PartialEq, Eq)]
pub struct TlasBuild {
    pub tlas: usize,
    pub dependencies: Vec<usize>,
}

/// The structures one build command builds.
#[derive(Clone, Debug, PartialEq, Eq)]
pub struct AsBuild {
    pub blas_s_built: Vec<usize>,
    pub tlas_s_built: Vec<TlasBuild>,
}

/// An acceleration structure action recorded into an encoder, checked when
/// the command buffer is submitted.
#[derive(Clone, Debug, PartialEq, Eq)]
pub enum AsAction {
    Build(AsBuild),
    UseTlas(usize),
}

/// A resource named by an error: its kind and id.
#[derive(Clone, Copy, Debug, PartialEq, Eq, Structural)]
pub struct ResourceIdent {
    pub kind: ResourceKind,
    pub id: usize,
}

/// Errors of the acceleration structure actions checked at submission.
#[derive(Clone, Copy, Debug, PartialEq, Eq, Structural)]
pub enum ValidateAsActionsError {
    /// A BLAS that a used TLAS depends on has been destroyed.
    DestroyedResource { kind: ResourceKind, id: usize },
    /// A TLAS is used but was never built.
    UsedUnbuiltTlas { tlas: usize },
    /// A BLAS is referenced but was never built; the two resources are named
    /// in the order in which the check that found it names them.
    UsedUnbuiltBlas(ResourceIdent, ResourceIdent),
    /// A BLAS was built after the TLAS that depends on it.
    BlasNewerThenTlas { blas: usize, tlas: usize },
}

/// One triangle geometry of a BLAS build.
#[derive(Clone, Copy, Debug, PartialEq, Eq, Structural)]
pub struct BlasTriangleGeometry {
    /// The size of the geometry; must fit the size the BLAS was created for.
    pub size: BlasTriangleGeometrySizeDescriptor,
    pub vertex_buffer: usize,
    pub index_buffer: Option<usize>,
    pub transform_buffer: Option<usize>,
    pub first_vertex: u32,
    pub vertex_stride: u64,
    pub first_index: Option<u32>,
    pub transform_buffer_offset: Option<u64>,
}

/// The geometries of a BLAS build.
#[derive(Clone, Debug, PartialEq, Eq)]
pub enum BlasGeometries {
    TriangleGeometries(Vec<BlasTriangleGeometry>),
}

/// A BLAS to build, with its geometries.
#[derive(Clone, Debug, PartialEq, Eq)]
pub struct BlasBuildEntry {
    pub blas_id: usize,
    pub geometries: BlasGeometries,
}

/// One instance of a TLAS build.  The transform is a row-major 3x4 matrix,
/// each entry given by the bits of its `f32`.
#[derive(Clone, Copy, Debug, PartialEq, Eq)]
pub struct TlasInstance {
    pub blas_id: usize,
    pub transform: [u32; 12],
    /// Custom index of the instance; must fit in 24 bits.
    pub custom_data: u32,
    pub mask: u8,
    /// The hit group of the linked ray tracing pipeline used for the instance.
    pub ray_hit_group_index: Option<u32>,
}

/// A TLAS to build, with its instances (`None` for an unused slot).
#[derive(Clone, Debug, PartialEq, Eq)]
pub struct TlasPackage {
    pub tlas_id: usize,
    pub instances: Vec<Option<TlasInstance>>,
    pub lowest_unmodified: u32,
    /// The ray tracing pipeline whose hit groups the instances name.
    pub linked_pipeline: Option<usize>,
}

/// Errors of an acceleration structure build.
#[derive(Clone, Copy, Debug, PartialEq, Eq, Structural)]
pub enum BuildAccelerationStructureError {
    MissingFeature(MissingFeature),
    InvalidResource(InvalidResourceError),
    DestroyedResource { kind: ResourceKind, id: usize },
    MissingBufferUsage { buffer: usize, actual: u32, expected: u32 },
    /// The buffer holds `size` bytes where the build reads `required`.
    InsufficientBufferSize { buffer: usize, size: u64, required: u64 },
    UnalignedTransformBufferOffset { buffer: usize },
    /// The index count is not a multiple of three.
    InvalidIndexCount { buffer: usize, count: u32 },
    /// A geometry is handed a buffer without the data that goes with it.
    MissingAssociatedData { buffer: usize },
    /// A BLAS is built with more geometries than it was created for.
    IncompatibleBlasBuildSizes { blas: usize },
    IncompatibleBlasFlags { blas: usize, expected: u8, provided: u8 },
    IncompatibleBlasVertexCount { blas: usize, expected: u32, provided: u32 },
    DifferentBlasVertexFormats { blas: usize, expected: VertexFormat, provided: VertexFormat },
    VertexStrideTooSmall { blas: usize, min: u64, provided: u64 },
    VertexStrideUnaligned { blas: usize, alignment: u64, provided: u64 },
    BlasIndexCountProvidedMismatch { blas: usize },
    IncompatibleBlasIndexCount { blas: usize, expected: u32, provided: u32 },
    DifferentBlasIndexFormats { blas: usize, expected: Option<IndexFormat>, provided: Option<IndexFormat> },
    MissingIndexBuffer { blas: usize },
    /// A transform buffer is given to a BLAS created without `USE_TRANSFORM`.
    UseTransformMissing { blas: usize },
    /// No transform buffer is given to a BLAS created with `USE_TRANSFORM`.
    TransformMissing { blas: usize },
    TlasInvalidCustomIndex { tlas: usize },
    TlasInstanceCountExceeded { tlas: usize, count: u32, max: u32 },
    TooLargeHitGroupIndex { pipeline: usize, tlas: usize, num_hit_groups: u32, index: u32 },
    /// Instances name hit groups without a linked pipeline, or the reverse.
    TlasLinkedPipelineInstanceHitGroupIndexMismatch { tlas: usize },
    /// The TLAS returns vertex positions on hits but an instance's BLAS does not.
    TlasDependentMissingVertexReturn { tlas: usize, blas: usize },
    CompactedBlas { blas: usize },
}

/// The first error that `f` finds in `s`, in order, or `None`.
pub open spec fn first_err<A, E>(s: Seq<A>, f: spec_fn(A) -> Option<E>) -> Option<E>
    decreases s.len(),
{
    if s.len() == 0 {
        None
    } else {
        match first_err(s.drop_last(), f) {
            Some(e) => Some(e),
            None => f(s.last()),
        }
    }
}

/// The first error that `f` finds in `s`, given each item's position.
pub open spec fn first_err_at<A, E>(s: Seq<A>, f: spec_fn(int, A) -> Option<E>) -> Option<E>
    decreases s.len(),
{
    if s.len() == 0 {
        None
    } else {
        match first_err_at(s.drop_last(), f) {
            Some(e) => Some(e),
            None => f(s.len() - 1, s.last()),
        }
    }
}

/// `r` is what the check `c` found: `Ok` when it found nothing.
pub open spec fn reports<E>(r: Result<(), E>, c: Option<E>) -> bool {
    match c {
        None => r is Ok,
        Some(e) => r == Err::<(), E>(e),
    }
}

/// Checking one more item extends the check of a prefix.
pub proof fn lemma_first_err_step<A, E>(s: Seq<A>, f: spec_fn(A) -> Option<E>, i: int)
    requires
        0 <= i < s.len(),
    ensures
        first_err(s.take(i + 1), f) == match first_err(s.take(i), f) {
            Some(e) => Some(e),
            None => f(s[i]),
        },
{
    assert(s.take(i + 1).drop_last() =~= s.take(i));
    assert(s.take(i + 1).last() == s[i]);
}

/// Once a prefix has an error, the whole sequence has that first error.
pub proof fn lemma_first_err_persists<A, E>(s: Seq<A>, f: spec_fn(A) -> Option<E>, i: int)
    requires
        0 <= i <= s.len(),
        first_err(s.take(i), f) is Some,
    ensures
        first_err(s, f) == first_err(s.take(i), f),
    decreases s.len() - i,
{
    if i == s.len() {
        assert(s.take(i) =~= s);
    } else {
        lemma_first_err_step(s, f, i);
        lemma_first_err_persists(s, f, i + 1);
    }
}

/// Checking one more item extends the check of a prefix.
pub proof fn lemma_first_err_at_step<A, E>(s: Seq<A>, f: spec_fn(int, A) -> Option<E>, i: int)
    requires
        0 <= i < s.len(),
    ensures
        first_err_at(s.take(i + 1), f) == match first_err_at(s.take(i), f) {
            Some(e) => Some(e),
            None => f(i, s[i]),
        },
{
    assert(s.take(i + 1).drop_last() =~= s.take(i));
    assert(s.take(i + 1).last() == s[i]);
}

/// Once a prefix has an error, the whole sequence has that first error.
pub proof fn lemma_first_err_at_persists<A, E>(s: Seq<A>, f: spec_fn(int, A) -> Option<E>, i: int)
    requires
        0 <= i <= s.len(),
        first_err_at(s.take(i), f) is Some,
    ensures
        first_err_at(s, f) == first_err_at(s.take(i), f),
    decreases s.len() - i,
{
    if i == s.len() {
        assert(s.take(i) =~= s);
    } else {
        lemma_first_err_at_step(s, f, i);
        lemma_first_err_at_persists(s, f, i + 1);
    }
}

/// When no item has an error, `f` finds none in any item.
pub proof fn lemma_first_err_none<A, E>(s: Seq<A>, f: spec_fn(A) -> Option<E>)
    requires
        first_err(s, f) is None,
    ensures
        forall|i: int| 0 <= i < s.len() ==> f(#[trigger] s[i]) is None,
    decreases s.len(),
{
    if s.len() > 0 {
        lemma_first_err_none(s.drop_last(), f);
        assert forall|i: int| 0 <= i < s.len() implies f(#[trigger] s[i]) is None by {
            if i < s.len() - 1 {
                assert(s.drop_last()[i] == s[i]);
            }
        }
    }
}

/// When no item has an error, `f` finds none at any position.
pub proof fn lemma_first_err_at_none<A, E>(s: Seq<A>, f: spec_fn(int, A) -> Option<E>)
    requires
        first_err_at(s, f) is None,
    ensures
        forall|i: int| 0 <= i < s.len() ==> f(i, #[trigger] s[i]) is None,
    decreases s.len(),
{
    if s.len() > 0 {
        lemma_first_err_at_none(s.drop_last(), f);
        assert forall|i: int| 0 <= i < s.len() implies f(i, #[trigger] s[i]) is None by {
            if i < s.len() - 1 {
                assert(s.drop_last()[i] == s[i]);
            }
        }
    }
}

} // verus!
