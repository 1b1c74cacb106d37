//! The commands that replaying a pass records into the backend's command
//! encoder.  A label is named by its range in the pass's `string_data`, push
//! constant values by their range in the pass's `push_constant_data`, and
//! dynamic offsets by their range in the pass's `dynamic_offsets`.

use vstd::prelude::*;
use crate::pass::PassTimestampWrites;
use crate::acceleration_structure::BlasTriangleGeometry;

verus! {

/// A region of a pipeline's shader binding table: `count` records from
/// byte `offset` of the table buffer `table`.
#[derive(Clone, Copy, Debug, PartialEq, Eq)]
pub struct SbtRegion {
    pub table: u64,
    pub offset: u64,
    pub count: u32,
}

/// One command recorded into the backend's command encoder.
#[derive(Clone, Copy, Debug, PartialEq, Eq)]
pub enum RawCommand {
    /// Resets the queries `start..end` of a query set.
    ResetQueries { query_set: usize, start: u32, end: u32 },
    BeginComputePass { timestamp_writes: Option<PassTimestampWrites> },
    EndComputePass,
    BeginRayTracingPass { timestamp_writes: Option<PassTimestampWrites> },
    EndRayTracingPass,
    SetComputePipeline { pipeline: usize },
    SetRayTracingPipeline { pipeline: usize },
    SetBindGroup { index: u32, bind_group: usize, offsets_start: usize, offsets_len: usize },
    SetPushConstants { stages: u32, byte_offset: u32, values_start: usize, values_len: usize },
    /// Sets the pass's whole compute push constant storage again, from offset 0.
    RestorePushConstants { len: usize },
    Dispatch { groups: [u32; 3] },
    DispatchIndirect { buffer: usize, offset: u64 },
    /// Runs the internal pipeline that checks indirect dispatch arguments and
    /// copies them into the validated-arguments buffer.
    ValidateIndirectDispatch { buffer: usize, offset: u64 },
    /// Dispatches with the validated arguments.
    DispatchValidatedIndirect,
    BeginDebugMarker { label_start: usize, label_len: usize },
    EndDebugMarker,
    InsertDebugMarker { label_start: usize, label_len: usize },
    WriteTimestamp { query_set: usize, query_index: u32 },
    BeginQuery { query_set: usize, query_index: u32 },
    EndQuery { query_set: usize, query_index: u32 },
    /// A trace with the ray generation, miss and hit regions of the
    /// pipeline's shader binding table.
    TraceRays { count: [u32; 3], ray_generation: SbtRegion, ray_miss: SbtRegion, ray_hit: SbtRegion },
    TraceRaysIndirect { buffer: usize, offset: u64, ray_generation: SbtRegion, ray_miss: SbtRegion, ray_hit: SbtRegion },
    /// Builds a BLAS from its geometries, using the scratch space from
    /// `scratch_offset` on.
    /// The bytes `start..end` of `buffer` must be initialized before the
    /// commands run.
    RequireInitializedMemory { buffer: usize, start: u64, end: u64 },
    /// `buffer` joins the pass's usage scope with the internal use `usage`
    /// (a `BufferUses` bit set).  Whether that use conflicts with another use
    /// of the buffer in the same scope is not checked here: usage scopes are
    /// not modelled, so a conflict is never reported.
    UseBuffer { buffer: usize, usage: u32 },
    BuildBlas { blas: usize, scratch_offset: u64, geometry_count: usize },
    /// One triangle geometry of the BLAS build just before: its buffers,
    /// counts, formats and offsets, with the byte offset of its first index
    /// into the index buffer.
    BlasTriangles { blas: usize, geometry: BlasTriangleGeometry, index_offset: u64 },
    /// Writes the compacted size of a BLAS into its read-back buffer.
    ReadBlasCompactSize { blas: usize },
    /// Writes one instance into the instance buffer of a TLAS.
    WriteTlasInstance {
        tlas: usize,
        transform: [u32; 12],
        custom_data: u32,
        mask: u8,
        blas_address: u64,
        shader_binding_table_offset: u32,
    },
    /// Builds a TLAS from the first `instance_count` instances of its
    /// instance buffer, using the scratch space from `scratch_offset` on.
    BuildTlas { tlas: usize, scratch_offset: u64, instance_count: u32 },
}

} // verus!
