//! The resources that passes and acceleration structure builds refer to, the
//! devices that own them, and the registries (the hub) that map ids to them.
//!
//! A registry slot keeps a resource's data after its id is dropped, the way an
//! `Arc` held by a recorded command keeps the resource alive: `get` only
//! succeeds for a registered id whose resource is valid, while `resource` reads
//! the data of any slot that holds one.

use vstd::prelude::*;

verus! {

/// Buffer usage bit: the buffer may hold indirect dispatch arguments.
pub const BUFFER_USAGE_INDIRECT: u32 = 256;
/// Buffer usage bit: the buffer may be an input of a BLAS build.
pub const BUFFER_USAGE_BLAS_INPUT: u32 = 1024;
/// Internal buffer use: read-only storage.
pub const BUFFER_USES_STORAGE_READ_ONLY: u32 = 128;
/// Internal buffer use: the indirect buffer of a dispatch.
pub const BUFFER_USES_INDIRECT: u32 = 512;
/// Shader stage bit of the compute stage.
pub const SHADER_STAGE_COMPUTE: u32 = 4;
/// Alignment, in bytes, of push constant offsets and sizes.
pub const PUSH_CONSTANT_ALIGNMENT: u32 = 4;
/// Size in bytes of the indirect dispatch arguments (three `u32`).
pub const DISPATCH_INDIRECT_ARGS_SIZE: u64 = 12;

/// Kinds of registered resources, as named in errors.
#[derive(Clone, Copy, Debug, PartialEq, Eq, Structural)]
pub enum ResourceKind {
    Buffer,
    QuerySet,
    BindGroup,
    BindGroupLayout,
    PipelineLayout,
    ComputePipeline,
    RayTracingPipeline,
    ShaderModule,
    PipelineCache,
    Blas,
    Tlas,
}

/// A lookup found an id whose resource failed to be created.
#[derive(Clone, Copy, Debug, PartialEq, Eq, Structural)]
pub struct InvalidResourceError {
    pub kind: ResourceKind,
    pub id: usize,
}

/// One registry entry.
pub struct Slot<T> {
    /// The resource's data; `None` for an id whose creation failed.
    pub resource: Option<T>,
    /// Whether the id is still registered (it has not been dropped).
    pub registered: bool,
}

/// A registry of resources of one kind, indexed by id.
pub struct Registry<T> {
    pub slots: Vec<Slot<T>>,
}

/// `slots` with `resource` registered under `id`: slots past the end and
/// before `id` are added empty.
pub open spec fn registered_at<T>(slots: Seq<Slot<T>>, id: int, resource: Option<T>) -> Seq<Slot<T>> {
    Seq::new(
        if id < slots.len() { slots.len() } else { (id + 1) as nat },
        |i: int|
            if i == id {
                Slot { resource, registered: true }
            } else if i < slots.len() {
                slots[i]
            } else {
                Slot { resource: None, registered: false }
            },
    )
}

impl<T> Registry<T> {
    /// The id can be given to a new resource: it is not registered, and no
    /// holder keeps data under it.
    pub open spec fn is_free(&self, id: usize) -> bool {
        !self.has_id(id) && !self.holds(id)
    }

    /// The id is registered: looking it up is allowed.
    pub open spec fn has_id(&self, id: usize) -> bool {
        id < self.slots@.len() && self.slots@[id as int].registered
    }

    /// The id is registered and its resource is valid.
    pub open spec fn is_valid(&self, id: usize) -> bool {
        self.has_id(id) && self.slots@[id as int].resource is Some
    }

    /// The slot holds resource data (registered or not).
    pub open spec fn holds(&self, id: usize) -> bool {
        id < self.slots@.len() && self.slots@[id as int].resource is Some
    }

    /// The data held for the id.
    pub open spec fn data(&self, id: usize) -> T {
        self.slots@[id as int].resource->0
    }

    /// An empty registry.
    pub fn new() -> (r: Registry<T>)
        ensures
            r.slots@.len() == 0,
    {
        Registry { slots: Vec::new() }
    }

    /// Looks up a registered id: fails when its resource is invalid.
    pub fn get(&self, id: usize, kind: ResourceKind) -> (r: Result<&T, InvalidResourceError>)
        requires
            self.has_id(id),
        ensures
            match r {
                Ok(t) => self.is_valid(id) && *t == self.data(id),
                Err(e) => !self.is_valid(id) && e == (InvalidResourceError { kind, id }),
            },
    {
        match &self.slots[id].resource {
            Some(t) => Ok(t),
            None => Err(InvalidResourceError { kind, id }),
        }
    }

    /// Reads the data of a slot that holds some, as a recorded reference does.
    pub fn resource(&self, id: usize) -> (r: &T)
        requires
            self.holds(id),
        ensures
            *r == self.data(id),
    {
        self.slots[id].resource.as_ref().unwrap()
    }

    /// Registers a new id for `resource` (`None` for a failed creation).
    pub fn register(&mut self, resource: Option<T>) -> (id: usize)
        requires
            old(self).slots@.len() < usize::MAX,
        ensures
            id == old(self).slots@.len(),
            final(self).slots@.len() == old(self).slots@.len() + 1,
            forall|i: int| 0 <= i < old(self).slots@.len() ==> final(self).slots@[i] == old(self).slots@[i],
            final(self).slots@[id as int].registered,
            final(self).slots@[id as int].resource == resource,
    {
        let id = self.slots.len();
        self.slots.push(Slot { resource, registered: true });
        id
    }

    /// Registers `resource` under the id `id` that the caller chose.
    pub fn register_at(&mut self, id: usize, resource: Option<T>)
        requires
            old(self).is_free(id),
            id < usize::MAX,
        ensures
            final(self).slots@ == registered_at(old(self).slots@, id as int, resource),
    {
        if id < self.slots.len() {
            let _ = self.slots.remove(id);
            self.slots.insert(id, Slot { resource, registered: true });
        } else {
            while self.slots.len() < id
                invariant
                    id < usize::MAX,
                    old(self).slots@.len() <= self.slots@.len() <= id,
                    forall|i: int| 0 <= i < old(self).slots@.len() ==> self.slots@[i] == old(self).slots@[i],
                    forall|i: int| old(self).slots@.len() <= i < self.slots@.len() ==> self.slots@[i] == (Slot::<T> { resource: None, registered: false }),
                decreases id - self.slots@.len(),
            {
                self.slots.push(Slot { resource: None, registered: false });
            }
            self.slots.push(Slot { resource, registered: true });
        }
        assert(self.slots@ =~= registered_at(old(self).slots@, id as int, resource));
    }

    /// Drops an id: it can no longer be looked up, while holders keep the data.
    pub fn unregister(&mut self, id: usize)
        requires
            old(self).has_id(id),
        ensures
            final(self).slots@.len() == old(self).slots@.len(),
            forall|i: int| 0 <= i < old(self).slots@.len() && i != id ==> final(self).slots@[i] == old(self).slots@[i],
            !final(self).slots@[id as int].registered,
            final(self).slots@[id as int].resource == old(self).slots@[id as int].resource,
    {
        let slot = self.slots.remove(id);
        let Slot { resource, registered: _ } = slot;
        self.slots.insert(id, Slot { resource, registered: false });
        proof {
            assert forall|i: int| 0 <= i < old(self).slots@.len() && i != id implies final(self).slots@[i]
                == old(self).slots@[i] by {}
        }
    }
}

/// The optional features of a device that these operations check.
#[derive(Clone, Copy, Debug, PartialEq, Eq, Structural)]
pub struct Features {
    pub timestamp_query: bool,
    pub timestamp_query_inside_passes: bool,
    pub ray_query: bool,
    pub ray_tracing_acceleration_structure: bool,
    pub ray_hit_vertex_return: bool,
    pub ray_tracing_pipelines: bool,
    pub extended_acceleration_structure_vertex_formats: bool,
}

/// The limits of a device that these operations check.
#[derive(Clone, Copy, Debug, PartialEq, Eq, Structural)]
pub struct Limits {
    pub max_bind_groups: u32,
    pub max_compute_workgroups_per_dimension: u32,
    pub max_compute_workgroup_size_x: u32,
    pub max_compute_workgroup_size_y: u32,
    pub max_compute_workgroup_size_z: u32,
}

/// A device, with what these operations read of it.
#[derive(Clone, Copy, Debug, PartialEq, Eq, Structural)]
pub struct Device {
    /// Cleared once the device is lost or destroyed.
    pub valid: bool,
    pub features: Features,
    pub limits: Limits,
    /// Downlevel flag: indirect execution is supported.
    pub indirect_execution: bool,
    /// Indirect dispatch arguments are validated on the GPU before use.
    pub indirect_validation: bool,
    pub ray_tracing_scratch_buffer_alignment: u32,
    /// Size in bytes of one TLAS instance in the backend's format.
    pub raw_tlas_instance_size: u64,
}

impl Device {
    /// The ray count limits (`workgroup size * workgroups per dimension`) fit
    /// in `u32`, and scratch space has a positive alignment.
    pub open spec fn well_formed(&self) -> bool {
        &&& self.limits.max_compute_workgroup_size_x * self.limits.max_compute_workgroups_per_dimension <= u32::MAX
        &&& self.limits.max_compute_workgroup_size_y * self.limits.max_compute_workgroups_per_dimension <= u32::MAX
        &&& self.limits.max_compute_workgroup_size_z * self.limits.max_compute_workgroups_per_dimension <= u32::MAX
        &&& self.ray_tracing_scratch_buffer_alignment > 0
    }
}

/// A buffer.
pub struct Buffer {
    pub device: usize,
    pub size: u64,
    /// Usage bits, as `wgpu_types::BufferUsages`.
    pub usage: u32,
    /// The buffer has been destroyed.
    pub destroyed: bool,
}

/// Types of query set.
#[derive(Clone, Copy, Debug, PartialEq, Eq, Structural)]
pub enum QueryType {
    Occlusion,
    PipelineStatistics,
    Timestamp,
}

/// A query set.
pub struct QuerySet {
    pub device: usize,
    pub ty: QueryType,
    pub count: u32,
}

/// A bind group layout.  Several ids may name one layout (such as the ids
/// handed out for a pipeline's layouts); `handle` identifies the layout
/// itself, and layouts are compatible when their handles are equal.
#[derive(Clone, Copy, Debug, PartialEq, Eq, Structural)]
pub struct BindGroupLayout {
    pub device: usize,
    pub handle: u64,
    /// The pipeline that the layout was derived for, if any: bind groups of
    /// such a layout can only be used with that pipeline.
    pub exclusive_pipeline: Option<ExclusivePipeline>,
}

/// The pipeline, by id, that a derived bind group layout belongs to.
#[derive(Clone, Copy, Debug, PartialEq, Eq, Structural)]
pub enum ExclusivePipeline {
    Compute(usize),
    RayTracing(usize),
}

/// A bind group, with the id of its layout.
pub struct BindGroup {
    pub device: usize,
    pub layout: usize,
    /// The bound sizes of its buffer bindings whose minimum size the layout
    /// leaves to the pipeline, in binding order.
    pub late_buffer_binding_sizes: Vec<u64>,
}

/// A push constant range of a pipeline layout.
#[derive(Clone, Copy, Debug, PartialEq, Eq, Structural)]
pub struct PushConstantRange {
    /// Shader stage bits, as `wgpu_types::ShaderStages`.
    pub stages: u32,
    pub start: u32,
    pub end: u32,
}

/// A pipeline layout: the bind group layout expected in each slot.
pub struct PipelineLayout {
    pub device: usize,
    pub bind_group_layouts: Vec<usize>,
    pub push_constant_ranges: Vec<PushConstantRange>,
}

/// A compute pipeline, with the id of its pipeline layout.
pub struct ComputePipeline {
    pub device: usize,
    pub layout: usize,
    /// For each bind group slot, the minimum sizes that the shader needs of
    /// the slot's late-sized buffer bindings.
    pub late_sized_buffer_groups: Vec<Vec<u64>>,
}

/// One entry point of a shader module: its stage (a `ShaderStages` bit)
/// and its name.
pub struct ShaderEntryPoint {
    pub stage: u32,
    pub name: String,
}

/// A shader module, with the entry points of its interface when it has one
/// (a module passed through to the backend has none).
pub struct ShaderModule {
    pub device: usize,
    pub interface: Option<Vec<ShaderEntryPoint>>,
}

/// A pipeline cache.
#[derive(Clone, Copy, Debug, PartialEq, Eq, Structural)]
pub struct PipelineCache {
    pub device: usize,
}

/// The shader binding table that the backend made for a ray tracing
/// pipeline: its buffer, by handle, and the byte offset of each region.
#[derive(Clone, Copy, Debug, PartialEq, Eq, Structural)]
pub struct ShaderBindingData {
    pub buffer: u64,
    pub ray_generation_offset: u64,
    pub ray_miss_offset: u64,
    pub ray_hit_offset: u64,
}

/// A ray tracing pipeline, with the id of its pipeline layout.
pub struct RayTracingPipeline {
    pub device: usize,
    pub layout: usize,
    pub num_hit_groups: u32,
    /// Where the backend put the pipeline's shader binding table.
    pub shader_binding_data: ShaderBindingData,
    /// For each bind group slot, the minimum sizes that the shaders need of
    /// the slot's late-sized buffer bindings.
    pub late_sized_buffer_groups: Vec<Vec<u64>>,
    pub label: Option<String>,
    /// The shader modules of the stages, kept alive by the pipeline: ray
    /// generation, miss, then each hit group's closest-hit and any-hit.
    pub shader_modules: Vec<usize>,
}

} // verus!
