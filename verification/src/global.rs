//! The hub: every device, command encoder and resource registry, and the
//! invariant that ties them together.

use vstd::prelude::*;
use crate::pass::EncoderStatus;
use crate::raw::RawCommand;
use crate::resource::{
    BindGroup, BindGroupLayout, Buffer, ComputePipeline, Device, PipelineCache, PipelineLayout, QuerySet,
    RayTracingPipeline, Registry, ShaderModule,
};
use crate::acceleration_structure::{AsAction, Blas, Tlas};

verus! {

/// A command encoder and what has been recorded into it.
pub struct CommandBuffer {
    pub device: usize,
    pub status: EncoderStatus,
    /// The commands recorded into the backend's encoder.
    pub commands: Vec<RawCommand>,
    /// The acceleration structure builds and uses, checked at submission.
    pub as_actions: Vec<AsAction>,
}

/// The hub of all devices, encoders and resources.
pub struct Global {
    pub devices: Vec<Device>,
    pub command_buffers: Vec<CommandBuffer>,
    pub buffers: Registry<Buffer>,
    pub query_sets: Registry<QuerySet>,
    pub bind_group_layouts: Registry<BindGroupLayout>,
    pub bind_groups: Registry<BindGroup>,
    pub pipeline_layouts: Registry<PipelineLayout>,
    pub compute_pipelines: Registry<ComputePipeline>,
    pub ray_tracing_pipelines: Registry<RayTracingPipeline>,
    pub shader_modules: Registry<ShaderModule>,
    pub pipeline_caches: Registry<PipelineCache>,
    pub blas_s: Registry<Blas>,
    pub tlas_s: Registry<Tlas>,
}

impl Global {
    /// `self` and `other` have the same devices and resources; only encoders may differ.
    pub open spec fn same_resources(self, other: Global) -> bool {
        &&& self.devices == other.devices
        &&& self.buffers == other.buffers
        &&& self.query_sets == other.query_sets
        &&& self.bind_group_layouts == other.bind_group_layouts
        &&& self.bind_groups == other.bind_groups
        &&& self.pipeline_layouts == other.pipeline_layouts
        &&& self.compute_pipelines == other.compute_pipelines
        &&& self.ray_tracing_pipelines == other.ray_tracing_pipelines
        &&& self.shader_modules == other.shader_modules
        &&& self.pipeline_caches == other.pipeline_caches
        &&& self.blas_s == other.blas_s
        &&& self.tlas_s == other.tlas_s
    }

    /// Appends `cmds` to the commands of encoder `id` and sets its status.
    pub fn append_commands(&mut self, id: usize, cmds: &mut Vec<RawCommand>, status: EncoderStatus)
        requires
            id < old(self).command_buffers@.len(),
        ensures
            final(self).same_resources(*old(self)),
            final(self).command_buffers@.len() == old(self).command_buffers@.len(),
            forall|i: int| 0 <= i < old(self).command_buffers@.len() && i != id ==> final(self).command_buffers@[i] == old(
                self,
            ).command_buffers@[i],
            final(self).command_buffers@[id as int].device == old(self).command_buffers@[id as int].device,
            final(self).command_buffers@[id as int].status == status,
            final(self).command_buffers@[id as int].commands@ == old(self).command_buffers@[id as int].commands@ + old(cmds)@,
            final(self).command_buffers@[id as int].as_actions == old(self).command_buffers@[id as int].as_actions,
    {
        let cb = self.command_buffers.remove(id);
        let CommandBuffer { device, status: _, mut commands, as_actions } = cb;
        commands.append(cmds);
        self.command_buffers.insert(id, CommandBuffer { device, status, commands, as_actions });
        proof {
            assert forall|i: int| 0 <= i < old(self).command_buffers@.len() && i != id implies self.command_buffers@[i]
                == old(self).command_buffers@[i] by {}
        }
    }

    /// Sets the status of encoder `id`.
    pub fn set_encoder_status(&mut self, id: usize, status: EncoderStatus)
        requires
            id < old(self).command_buffers@.len(),
        ensures
            final(self).same_resources(*old(self)),
            final(self).command_buffers@ == old(self).command_buffers@.update(
                id as int,
                CommandBuffer { status, ..old(self).command_buffers@[id as int] },
            ),
    {
        let cb = self.command_buffers.remove(id);
        let CommandBuffer { device, status: _, commands, as_actions } = cb;
        self.command_buffers.insert(id, CommandBuffer { device, status, commands, as_actions });
        assert(self.command_buffers@ =~= old(self).command_buffers@.update(
            id as int,
            CommandBuffer { status, ..old(self).command_buffers@[id as int] },
        ));
    }

    /// Every device is well formed, every encoder and resource belongs to an
    /// existing device, every layout that a resource refers to is held,
    /// pipeline layouts have at most `MAX_BIND_GROUPS` slots, BLAS sizes are
    /// consistent, and TLAS dependencies are held BLASes.
    pub open spec fn well_formed(&self) -> bool {
        let nd = self.devices@.len();
        &&& forall|d: int| 0 <= d < nd ==> (#[trigger] self.devices@[d]).well_formed()
            && self.devices@[d].limits.max_bind_groups <= crate::pass::MAX_BIND_GROUPS
        &&& forall|c: int| 0 <= c < self.command_buffers@.len() ==> (#[trigger] self.command_buffers@[c]).device < nd
        &&& forall|i: usize| #[trigger] self.buffers.holds(i) ==> self.buffers.data(i).device < nd
        &&& forall|i: usize| #[trigger] self.query_sets.holds(i) ==> self.query_sets.data(i).device < nd
        &&& forall|i: usize| #[trigger] self.bind_group_layouts.holds(i) ==> self.bind_group_layouts.data(i).device < nd
        &&& forall|i: usize| #[trigger] self.bind_groups.holds(i) ==> self.bind_groups.data(i).device < nd
            && self.bind_group_layouts.holds(self.bind_groups.data(i).layout)
        &&& forall|i: usize| #[trigger] self.pipeline_layouts.holds(i) ==> self.pipeline_layouts.data(i).device < nd
            && self.pipeline_layouts.data(i).bind_group_layouts@.len() <= crate::pass::MAX_BIND_GROUPS && forall|j: int|
            0 <= j < self.pipeline_layouts.data(i).bind_group_layouts@.len() ==> self.bind_group_layouts.holds(
                #[trigger] self.pipeline_layouts.data(i).bind_group_layouts@[j],
            )
        &&& forall|i: usize| #[trigger] self.compute_pipelines.holds(i) ==> self.compute_pipelines.data(i).device < nd
            && self.pipeline_layouts.holds(self.compute_pipelines.data(i).layout)
        &&& forall|i: usize| #[trigger] self.ray_tracing_pipelines.holds(i) ==> self.ray_tracing_pipelines.data(i).device
            < nd && self.pipeline_layouts.holds(self.ray_tracing_pipelines.data(i).layout)
        &&& forall|i: usize| #[trigger] self.shader_modules.holds(i) ==> self.shader_modules.data(i).device < nd
        &&& forall|i: usize| #[trigger] self.pipeline_caches.holds(i) ==> self.pipeline_caches.data(i).device < nd
        &&& forall|i: usize| #[trigger] self.blas_s.holds(i) ==> self.blas_s.data(i).device < nd && forall|j: int|
            0 <= j < self.blas_s.data(i).sizes@.len() ==> {
                let sd = #[trigger] self.blas_s.data(i).sizes@[j];
                &&& sd.vertex_format.is_blas_format()
                &&& (sd.index_count is Some <==> sd.index_format is Some)
            }
        &&& forall|i: usize| #[trigger] self.tlas_s.holds(i) ==> self.tlas_s.data(i).device < nd && forall|j: int|
            0 <= j < self.tlas_s.data(i).dependencies@.len() ==> self.blas_s.holds(
                #[trigger] self.tlas_s.data(i).dependencies@[j],
            )
    }

    /// Appends `action` to the acceleration structure actions of encoder `id`
    /// and sets its status.
    pub fn push_as_action(&mut self, id: usize, action: AsAction, status: EncoderStatus)
        requires
            id < old(self).command_buffers@.len(),
        ensures
            final(self).same_resources(*old(self)),
            final(self).command_buffers@.len() == old(self).command_buffers@.len(),
            forall|i: int| 0 <= i < old(self).command_buffers@.len() && i != id ==> final(self).command_buffers@[i] == old(
                self,
            ).command_buffers@[i],
            final(self).command_buffers@[id as int].device == old(self).command_buffers@[id as int].device,
            final(self).command_buffers@[id as int].status == status,
            final(self).command_buffers@[id as int].commands == old(self).command_buffers@[id as int].commands,
            final(self).command_buffers@[id as int].as_actions@ == old(self).command_buffers@[id as int].as_actions@.push(action),
    {
        let cb = self.command_buffers.remove(id);
        let CommandBuffer { device, status: _, commands, mut as_actions } = cb;
        as_actions.push(action);
        self.command_buffers.insert(id, CommandBuffer { device, status, commands, as_actions });
        proof {
            assert forall|i: int| 0 <= i < old(self).command_buffers@.len() && i != id implies self.command_buffers@[i]
                == old(self).command_buffers@[i] by {}
        }
    }
}

} // verus!
