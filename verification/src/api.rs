//! The user-facing handles and descriptors of ray tracing pipelines.  A
//! handle either names a pipeline of the hub by id, or stands for a
//! pipeline of a custom backend.

use vstd::prelude::*;
use crate::global::Global;
use crate::rt_pipeline::GetBindGroupLayoutError;
use crate::resource::{InvalidResourceError, ResourceKind};

verus! {

/// Where a ray tracing pipeline lives.
#[derive(Clone, Copy, Debug, PartialEq, Eq, Structural)]
pub enum DispatchRayTracingPipeline {
    /// A pipeline of the hub.
    Core { id: usize },
    /// A pipeline of a custom backend, by the handle that backend gave it.
    Custom { handle: usize },
}

/// Where a bind group layout lives.
#[derive(Clone, Copy, Debug, PartialEq, Eq, Structural)]
pub enum DispatchBindGroupLayout {
    Core { id: usize },
    Custom { handle: usize },
}

/// Handle to a bind group layout.
#[derive(Clone, Copy, Debug, PartialEq, Eq, Structural)]
pub struct BindGroupLayout {
    pub inner: DispatchBindGroupLayout,
}

/// Handle to a ray tracing pipeline.
#[derive(Clone, Copy, Debug, PartialEq, Eq, Structural)]
pub struct RayTracingPipeline {
    pub inner: DispatchRayTracingPipeline,
}

impl RayTracingPipeline {
    /// The bind group layout at `index` of the pipeline's layout, as a new
    /// handle (see `Global::ray_tracing_pipeline_get_bind_group_layout`).
    /// An error goes to `error_sink`, and the handle returned is then
    /// invalid.  A pipeline of a custom backend gets its layouts from that
    /// backend: `None` is returned and nothing changes.
    pub fn get_bind_group_layout(
        &self,
        global: &mut Global,
        error_sink: &mut Vec<GetBindGroupLayoutError>,
        index: u32,
    ) -> (r: Option<BindGroupLayout>)
        requires
            old(global).well_formed(),
            self.inner is Core ==> old(global).ray_tracing_pipelines.has_id(self.inner->Core_id),
            old(global).bind_group_layouts.slots@.len() < usize::MAX,
        ensures
            final(global).well_formed(),
            self.inner is Custom ==> r is None && *final(global) == *old(global) && final(error_sink)@ == old(error_sink)@,
            self.inner is Core ==> {
                let layouts = old(global).pipeline_layouts.data(
                    old(global).ray_tracing_pipelines.data(self.inner->Core_id).layout,
                ).bind_group_layouts@;
                let ok = old(global).ray_tracing_pipelines.is_valid(self.inner->Core_id) && index < layouts.len();
                let id = old(global).bind_group_layouts.slots@.len() as usize;
                &&& r == Some(BindGroupLayout { inner: DispatchBindGroupLayout::Core { id } })
                &&& final(global).bind_group_layouts.slots@.len() == old(global).bind_group_layouts.slots@.len() + 1
                &&& *final(global) == (Global { bind_group_layouts: final(global).bind_group_layouts, ..*old(global) })
                &&& ok ==> final(error_sink)@ == old(error_sink)@ && final(global).bind_group_layouts.slots@[id as int].resource
                    == Some(old(global).bind_group_layouts.data(layouts[index as int]))
                &&& !ok ==> final(error_sink)@ == old(error_sink)@.push(
                    if !old(global).ray_tracing_pipelines.is_valid(self.inner->Core_id) {
                        GetBindGroupLayoutError::InvalidResource(
                            InvalidResourceError { kind: ResourceKind::RayTracingPipeline, id: self.inner->Core_id },
                        )
                    } else {
                        GetBindGroupLayoutError::InvalidGroupIndex(index)
                    },
                ) && final(global).bind_group_layouts.slots@[id as int].resource is None
            },
    {
        match self.inner {
            DispatchRayTracingPipeline::Core { id } => {
                let (bgl, error) = global.ray_tracing_pipeline_get_bind_group_layout(id, index, None);
                if let Some(e) = error {
                    error_sink.push(e);
                }
                Some(BindGroupLayout { inner: DispatchBindGroupLayout::Core { id: bgl } })
            },
            DispatchRayTracingPipeline::Custom { handle: _ } => None,
        }
    }

    /// The handle of the custom backend's pipeline, if the pipeline is one.
    /// What type of object the backend keeps behind the handle is for the
    /// caller to tell.
    pub fn as_custom(&self) -> (r: Option<usize>)
        ensures
            r == match self.inner {
                DispatchRayTracingPipeline::Custom { handle } => Some(handle),
                DispatchRayTracingPipeline::Core { id: _ } => None::<usize>,
            },
    {
        match self.inner {
            DispatchRayTracingPipeline::Custom { handle } => Some(handle),
            DispatchRayTracingPipeline::Core { id: _ } => None,
        }
    }
}

/// Options for compiling a pipeline stage.  Overrides of pipeline
/// constants hold floating point values and stay with the caller.
#[derive(Clone, Copy, Debug, PartialEq, Eq, Structural)]
pub struct PipelineCompilationOptions {
    pub zero_initialize_workgroup_memory: bool,
}

/// The shader that handles the closest hit.
pub struct RayClosestHitState {
    /// The shader module, by id.
    pub module: usize,
    /// The entry point; without one the module must have exactly one
    /// closest-hit entry point.
    pub entry_point: Option<String>,
    pub compilation_options: PipelineCompilationOptions,
}

/// The shader that handles any hit.
pub struct RayAnyHitState {
    /// The shader module, by id.
    pub module: usize,
    /// The entry point; without one the module must have exactly one
    /// any-hit entry point.
    pub entry_point: Option<String>,
    pub compilation_options: PipelineCompilationOptions,
}

/// The shaders that handle a hit.
pub struct RayTracingHitGroup {
    pub ray_closest_hit: RayClosestHitState,
    pub ray_any_hit: Option<RayAnyHitState>,
}

/// Describes a ray tracing pipeline.
pub struct RayTracingPipelineDescriptor {
    pub label: Option<String>,
    /// The pipeline layout, by id; without one a layout is derived from
    /// the shaders.
    pub layout: Option<usize>,
    pub ray_generation_module: usize,
    pub ray_generation_entry_point: Option<String>,
    pub ray_generation_compilation_options: PipelineCompilationOptions,
    pub ray_miss_module: usize,
    pub ray_miss_entry_point: Option<String>,
    pub ray_miss_compilation_options: PipelineCompilationOptions,
    pub hit_groups: Vec<RayTracingHitGroup>,
    /// The maximum recursion depth; at least one.
    pub max_recursion_depth: u32,
    /// The pipeline cache, by id.
    pub cache: Option<usize>,
}

} // verus!
