//! Ray tracing pipelines: their creation from a descriptor, the bind group
//! layouts they hand out, and dropping them.
//!
//! Creation first resolves the ids of the descriptor, then checks the
//! device, the feature, the recursion depth, that every resource belongs to
//! the device, that each stage can select its entry point, and that a named
//! one is in its module's interface.  The check of each stage's bindings
//! against the layout is the shader validation's work: creation is handed
//! its result for each stage and fails on the first stage that did not
//! pass, in the order the stages are checked.  What the backend reported
//! when it made the pipeline is handed in as well, and a failure there is
//! the last error checked.  The layout derived for a pipeline without one,
//! the minimum binding sizes the shaders need, and the backend's shader
//! binding table are handed in too, and the pipeline keeps them.

use vstd::prelude::*;
use crate::global::Global;
use crate::pass::{DeviceError, MissingFeature};
use crate::resource::{
    BindGroupLayout, ExclusivePipeline, InvalidResourceError, PipelineLayout, PushConstantRange, RayTracingPipeline, Registry,
    ResourceKind, ShaderBindingData, ShaderEntryPoint, ShaderModule, Slot, registered_at,
};

verus! {

/// Shader stage bit of ray generation.
pub const SHADER_STAGE_RAY_GENERATION: u32 = 32;
/// Shader stage bit of any-hit.
pub const SHADER_STAGE_ANY_HIT: u32 = 64;
/// Shader stage bit of closest-hit.
pub const SHADER_STAGE_CLOSEST_HIT: u32 = 128;
/// Shader stage bit of miss.
pub const SHADER_STAGE_MISS: u32 = 256;

/// One programmable stage of a pipeline: a shader module and, optionally,
/// the name of its entry point.
pub struct ProgrammableStageDescriptor {
    pub module: usize,
    pub entry_point: Option<String>,
    pub zero_initialize_workgroup_memory: bool,
}

/// The stages that handle a hit.
pub struct RayTracingHitGroupDescriptor {
    pub ray_closest_hit_stage: ProgrammableStageDescriptor,
    pub ray_any_hit_stage: Option<ProgrammableStageDescriptor>,
}

/// Describes a ray tracing pipeline by ids.
pub struct RayTracingPipelineDescriptor {
    pub label: Option<String>,
    /// The pipeline layout; `None` asks for a layout derived from the shaders.
    pub layout: Option<usize>,
    pub ray_generation_stage: ProgrammableStageDescriptor,
    pub ray_miss_stage: ProgrammableStageDescriptor,
    pub ray_hit_groups: Vec<RayTracingHitGroupDescriptor>,
    pub max_recursion_depth: u32,
    pub cache: Option<usize>,
}

/// The ids reserved for the layouts of a pipeline with a derived layout.
pub struct ImplicitPipelineIds {
    pub root_id: usize,
    pub group_ids: Vec<usize>,
}

/// Errors of a pipeline stage.
#[derive(Clone, Debug, PartialEq, Eq)]
pub enum StageError {
    InvalidResource(InvalidResourceError),
    /// No entry point is named and the module has none for the stage.
    NoEntryPointFound,
    /// No entry point is named and the module has several for the stage.
    MultipleEntryPointsFound,
    /// The module's interface has no entry point of the stage with this name.
    MissingEntryPoint(String),
    /// The stage's bindings do not match the pipeline layout, as the shader
    /// validation reported it.
    InterfaceMismatch(String),
}

/// Errors of the ids reserved for a derived layout.
#[derive(Clone, Copy, Debug, PartialEq, Eq, Structural)]
pub enum ImplicitLayoutError {
    /// A pipeline without a layout was created with an id but without the
    /// ids of its derived layouts.
    MissingImplicitPipelineIds,
    /// Fewer bind group layout ids were reserved than the derived layout has.
    MissingIds(u32),
}

/// Errors of ray tracing pipeline creation.
#[derive(Clone, Debug, PartialEq, Eq)]
pub enum CreateRayTracingPipelineError {
    Device(DeviceError),
    MissingFeature(MissingFeature),
    InvalidResource(InvalidResourceError),
    Stage { stage: u32, error: StageError },
    Implicit(ImplicitLayoutError),
    /// The maximum recursion depth is zero; it must be at least one.
    ZeroMaxRecursionDepth,
}

/// Errors when asking a pipeline for one of its bind group layouts.
#[derive(Clone, Copy, Debug, PartialEq, Eq, Structural)]
pub enum GetBindGroupLayoutError {
    InvalidResource(InvalidResourceError),
    /// The pipeline's layout has no bind group layout at the index.
    InvalidGroupIndex(u32),
}

/// The number of entry points of `eps` for `stage`.
pub open spec fn stage_entry_points(eps: Seq<ShaderEntryPoint>, stage: u32) -> nat
    decreases eps.len(),
{
    if eps.len() == 0 {
        0
    } else {
        stage_entry_points(eps.drop_last(), stage) + if eps.last().stage == stage {
            1nat
        } else {
            0nat
        }
    }
}

/// The selection of the entry point of `stage` in module `m`: a named one is
/// taken as it is; otherwise the module must have exactly one for the stage.
pub open spec fn entry_point_error(m: ShaderModule, stage: u32, entry_point: Option<String>) -> Option<StageError> {
    if entry_point is Some {
        None
    } else {
        match m.interface {
            None => Some(StageError::NoEntryPointFound),
            Some(eps) => if stage_entry_points(eps@, stage) == 0 {
                Some(StageError::NoEntryPointFound)
            } else if stage_entry_points(eps@, stage) > 1 {
                Some(StageError::MultipleEntryPointsFound)
            } else {
                None
            },
        }
    }
}

/// The interface `eps` has an entry point of `stage` named `name`.
pub open spec fn has_entry_point(eps: Seq<ShaderEntryPoint>, stage: u32, name: Seq<char>) -> bool {
    exists|i: int| 0 <= i < eps.len() && (#[trigger] eps[i]).stage == stage && eps[i].name@ == name
}

/// The check of a named entry point against module `m`'s interface: a
/// module with an interface must have an entry point of `stage` with that
/// name.  A module without an interface, or a stage without a name, passes.
pub open spec fn named_entry_point_error(m: ShaderModule, stage: u32, entry_point: Option<String>) -> Option<StageError> {
    match entry_point {
        Some(n) => match m.interface {
            Some(eps) => if has_entry_point(eps@, stage, n@) {
                None
            } else {
                Some(StageError::MissingEntryPoint(n))
            },
            None => None,
        },
        None => None,
    }
}

/// The lookup of a stage's module.
pub open spec fn stage_lookup_error(g: Global, stage: u32, d: ProgrammableStageDescriptor) -> Option<CreateRayTracingPipelineError> {
    if g.shader_modules.is_valid(d.module) {
        None
    } else {
        Some(
            CreateRayTracingPipelineError::Stage {
                stage,
                error: StageError::InvalidResource(InvalidResourceError { kind: ResourceKind::ShaderModule, id: d.module }),
            },
        )
    }
}

/// The lookups of a hit group's modules: closest-hit, then any-hit.
pub open spec fn hit_group_lookup_error(g: Global, h: RayTracingHitGroupDescriptor) -> Option<CreateRayTracingPipelineError> {
    if stage_lookup_error(g, SHADER_STAGE_CLOSEST_HIT, h.ray_closest_hit_stage) is Some {
        stage_lookup_error(g, SHADER_STAGE_CLOSEST_HIT, h.ray_closest_hit_stage)
    } else {
        match h.ray_any_hit_stage {
            None => None,
            Some(a) => stage_lookup_error(g, SHADER_STAGE_ANY_HIT, a),
        }
    }
}

/// The first failing lookup among `groups`.
pub open spec fn hit_groups_lookup_error(g: Global, groups: Seq<RayTracingHitGroupDescriptor>) -> Option<
    CreateRayTracingPipelineError,
>
    decreases groups.len(),
{
    if groups.len() == 0 {
        None
    } else {
        match hit_groups_lookup_error(g, groups.drop_last()) {
            Some(e) => Some(e),
            None => hit_group_lookup_error(g, groups.last()),
        }
    }
}

/// The resolution of a descriptor's ids, in order: layout, cache, ray
/// generation module, miss module, then each hit group's modules.
pub open spec fn resolution_error(g: Global, desc: RayTracingPipelineDescriptor) -> Option<CreateRayTracingPipelineError> {
    if desc.layout is Some && !g.pipeline_layouts.is_valid(desc.layout->0) {
        Some(
            CreateRayTracingPipelineError::InvalidResource(
                InvalidResourceError { kind: ResourceKind::PipelineLayout, id: desc.layout->0 },
            ),
        )
    } else if desc.cache is Some && !g.pipeline_caches.is_valid(desc.cache->0) {
        Some(
            CreateRayTracingPipelineError::InvalidResource(
                InvalidResourceError { kind: ResourceKind::PipelineCache, id: desc.cache->0 },
            ),
        )
    } else if stage_lookup_error(g, SHADER_STAGE_RAY_GENERATION, desc.ray_generation_stage) is Some {
        stage_lookup_error(g, SHADER_STAGE_RAY_GENERATION, desc.ray_generation_stage)
    } else if stage_lookup_error(g, SHADER_STAGE_MISS, desc.ray_miss_stage) is Some {
        stage_lookup_error(g, SHADER_STAGE_MISS, desc.ray_miss_stage)
    } else {
        hit_groups_lookup_error(g, desc.ray_hit_groups@)
    }
}

/// The first checks of a stage on device `dev`: its module must belong to
/// the device, and its entry point must be selected.
pub open spec fn stage_finalize_error(g: Global, dev: usize, stage: u32, d: ProgrammableStageDescriptor) -> Option<
    CreateRayTracingPipelineError,
> {
    let m = g.shader_modules.data(d.module);
    if m.device != dev {
        Some(CreateRayTracingPipelineError::Device(DeviceError::DeviceMismatch { kind: ResourceKind::ShaderModule, id: d.module }))
    } else {
        match entry_point_error(m, stage, d.entry_point) {
            Some(e) => Some(CreateRayTracingPipelineError::Stage { stage, error: e }),
            None => None,
        }
    }
}

/// `a`, but at most `b`.
pub open spec fn capped(a: int, b: int) -> int {
    if a < b {
        a
    } else {
        b
    }
}

/// The result of the shader validation's check of stage `k` (in the order
/// of `stage_modules`); a stage past the end of `checks` passed.
pub open spec fn check_at(checks: Seq<Option<StageError>>, k: int) -> Option<StageError> {
    if 0 <= k < checks.len() {
        checks[k]
    } else {
        None
    }
}

/// The check of a stage against its module's interface: its named entry
/// point must be there, then the shader validation's check `check` of the
/// stage's bindings against the layout must have passed.
pub open spec fn stage_named_error(g: Global, stage: u32, d: ProgrammableStageDescriptor, check: Option<StageError>) -> Option<
    CreateRayTracingPipelineError,
> {
    match named_entry_point_error(g.shader_modules.data(d.module), stage, d.entry_point) {
        Some(e) => Some(CreateRayTracingPipelineError::Stage { stage, error: e }),
        None => match check {
            Some(e) => Some(CreateRayTracingPipelineError::Stage { stage, error: e }),
            None => None,
        },
    }
}

/// The checks of a ray generation or miss stage on device `dev`: the first
/// checks, then the check against its module's interface.
pub open spec fn stage_creation_error(
    g: Global,
    dev: usize,
    stage: u32,
    d: ProgrammableStageDescriptor,
    check: Option<StageError>,
) -> Option<CreateRayTracingPipelineError> {
    if stage_finalize_error(g, dev, stage, d) is Some {
        stage_finalize_error(g, dev, stage, d)
    } else {
        stage_named_error(g, stage, d, check)
    }
}

/// The checks against the interface of a hit group whose closest-hit stage
/// is stage `k`: closest-hit, then any-hit (stage `k + 1`).
pub open spec fn hit_group_named_error(
    g: Global,
    h: RayTracingHitGroupDescriptor,
    checks: Seq<Option<StageError>>,
    k: int,
) -> Option<CreateRayTracingPipelineError> {
    if stage_named_error(g, SHADER_STAGE_CLOSEST_HIT, h.ray_closest_hit_stage, check_at(checks, k)) is Some {
        stage_named_error(g, SHADER_STAGE_CLOSEST_HIT, h.ray_closest_hit_stage, check_at(checks, k))
    } else {
        match h.ray_any_hit_stage {
            None => None,
            Some(a) => stage_named_error(g, SHADER_STAGE_ANY_HIT, a, check_at(checks, k + 1)),
        }
    }
}

/// The first failing check against the interface among `groups`, whose
/// stages follow the ray generation and miss stages.
pub open spec fn hit_groups_named_error(
    g: Global,
    groups: Seq<RayTracingHitGroupDescriptor>,
    checks: Seq<Option<StageError>>,
) -> Option<CreateRayTracingPipelineError>
    decreases groups.len(),
{
    if groups.len() == 0 {
        None
    } else {
        match hit_groups_named_error(g, groups.drop_last(), checks) {
            Some(e) => Some(e),
            None => hit_group_named_error(g, groups.last(), checks, 2 + hit_group_modules(groups.drop_last()).len() as int),
        }
    }
}

/// The first checks of a hit group's stages: closest-hit, then any-hit.
pub open spec fn hit_group_creation_error(g: Global, dev: usize, h: RayTracingHitGroupDescriptor) -> Option<
    CreateRayTracingPipelineError,
> {
    if stage_finalize_error(g, dev, SHADER_STAGE_CLOSEST_HIT, h.ray_closest_hit_stage) is Some {
        stage_finalize_error(g, dev, SHADER_STAGE_CLOSEST_HIT, h.ray_closest_hit_stage)
    } else {
        match h.ray_any_hit_stage {
            None => None,
            Some(a) => stage_finalize_error(g, dev, SHADER_STAGE_ANY_HIT, a),
        }
    }
}

/// The first failing hit group among `groups`.
pub open spec fn hit_groups_creation_error(g: Global, dev: usize, groups: Seq<RayTracingHitGroupDescriptor>) -> Option<
    CreateRayTracingPipelineError,
>
    decreases groups.len(),
{
    if groups.len() == 0 {
        None
    } else {
        match hit_groups_creation_error(g, dev, groups.drop_last()) {
            Some(e) => Some(e),
            None => hit_group_creation_error(g, dev, groups.last()),
        }
    }
}

/// The checks of creating the pipeline on device `dev`, in order: the device
/// must be valid and have ray tracing pipelines, the maximum recursion depth
/// must be at least one, the layout must belong to the device, then the ray
/// generation and miss stages are checked, then the first checks of every
/// hit group, then their named entry points and bindings, then the cache
/// must belong to
/// the device, and last the backend must have made the pipeline.
pub open spec fn creation_error(
    g: Global,
    dev: usize,
    desc: RayTracingPipelineDescriptor,
    checks: Seq<Option<StageError>>,
    backend_error: Option<DeviceError>,
) -> Option<
    CreateRayTracingPipelineError,
> {
    let device = g.devices@[dev as int];
    if !device.valid {
        Some(CreateRayTracingPipelineError::Device(DeviceError::Invalid))
    } else if !device.features.ray_tracing_pipelines {
        Some(CreateRayTracingPipelineError::MissingFeature(MissingFeature::RayTracingPipelines))
    } else if desc.max_recursion_depth == 0 {
        Some(CreateRayTracingPipelineError::ZeroMaxRecursionDepth)
    } else if desc.layout is Some && g.pipeline_layouts.data(desc.layout->0).device != dev {
        Some(
            CreateRayTracingPipelineError::Device(
                DeviceError::DeviceMismatch { kind: ResourceKind::PipelineLayout, id: desc.layout->0 },
            ),
        )
    } else if stage_creation_error(g, dev, SHADER_STAGE_RAY_GENERATION, desc.ray_generation_stage, check_at(checks, 0)) is Some {
        stage_creation_error(g, dev, SHADER_STAGE_RAY_GENERATION, desc.ray_generation_stage, check_at(checks, 0))
    } else if stage_creation_error(g, dev, SHADER_STAGE_MISS, desc.ray_miss_stage, check_at(checks, 1)) is Some {
        stage_creation_error(g, dev, SHADER_STAGE_MISS, desc.ray_miss_stage, check_at(checks, 1))
    } else if hit_groups_creation_error(g, dev, desc.ray_hit_groups@) is Some {
        hit_groups_creation_error(g, dev, desc.ray_hit_groups@)
    } else if hit_groups_named_error(g, desc.ray_hit_groups@, checks) is Some {
        hit_groups_named_error(g, desc.ray_hit_groups@, checks)
    } else if desc.cache is Some && g.pipeline_caches.data(desc.cache->0).device != dev {
        Some(
            CreateRayTracingPipelineError::Device(
                DeviceError::DeviceMismatch { kind: ResourceKind::PipelineCache, id: desc.cache->0 },
            ),
        )
    } else {
        match backend_error {
            Some(e) => Some(CreateRayTracingPipelineError::Device(e)),
            None => None,
        }
    }
}

/// A count truncated to `u32`.
pub open spec fn count_as_u32(n: nat) -> u32 {
    #[verifier::truncate]
    (n as u32)
}

/// Whether the device creates the pipeline: the ids were given as needed,
/// they resolve, and the device's checks pass.
pub open spec fn pipeline_device_created(
    g: Global,
    dev: usize,
    desc: RayTracingPipelineDescriptor,
    id_given: bool,
    implicit: Option<ImplicitPipelineIds>,
    checks: Seq<Option<StageError>>,
    backend_error: Option<DeviceError>,
) -> bool {
    &&& !(desc.layout is None && id_given && implicit is None)
    &&& resolution_error(g, desc) is None
    &&& creation_error(g, dev, desc, checks, backend_error) is None
}

/// The pipeline layout of a created pipeline: the descriptor's, or without
/// one, `derived_layout`.
pub open spec fn pipeline_layout_id(desc: RayTracingPipelineDescriptor, derived_layout: usize) -> usize {
    match desc.layout {
        Some(l) => l,
        None => derived_layout,
    }
}

/// What creating a ray tracing pipeline on device `dev` gives: the first
/// error, or the id of the pipeline's layout.  `id_given` tells whether the
/// caller chose the pipeline's id, and `implicit` holds the ids reserved for
/// a derived layout.
pub open spec fn ray_tracing_pipeline_outcome(
    g: Global,
    dev: usize,
    desc: RayTracingPipelineDescriptor,
    id_given: bool,
    implicit: Option<ImplicitPipelineIds>,
    derived_layout: usize,
    checks: Seq<Option<StageError>>,
    backend_error: Option<DeviceError>,
) -> Result<usize, CreateRayTracingPipelineError> {
    let layout = pipeline_layout_id(desc, derived_layout);
    let group_count = g.pipeline_layouts.data(layout).bind_group_layouts@.len();
    if desc.layout is None && id_given && implicit is None {
        Err(CreateRayTracingPipelineError::Implicit(ImplicitLayoutError::MissingImplicitPipelineIds))
    } else if resolution_error(g, desc) is Some {
        Err(resolution_error(g, desc)->0)
    } else if creation_error(g, dev, desc, checks, backend_error) is Some {
        Err(creation_error(g, dev, desc, checks, backend_error)->0)
    } else if implicit is Some && implicit->0.group_ids@.len() < group_count {
        Err(CreateRayTracingPipelineError::Implicit(ImplicitLayoutError::MissingIds(count_as_u32(group_count))))
    } else {
        Ok(layout)
    }
}

/// The modules of the hit groups, in order: each group's closest-hit, then
/// its any-hit.
pub open spec fn hit_group_modules(groups: Seq<RayTracingHitGroupDescriptor>) -> Seq<usize>
    decreases groups.len(),
{
    if groups.len() == 0 {
        Seq::empty()
    } else {
        let h = groups.last();
        hit_group_modules(groups.drop_last()) + seq![h.ray_closest_hit_stage.module] + match h.ray_any_hit_stage {
            Some(a) => seq![a.module],
            None => Seq::empty(),
        }
    }
}

/// The modules of all stages: ray generation, miss, then the hit groups'.
pub open spec fn stage_modules(desc: RayTracingPipelineDescriptor) -> Seq<usize> {
    seq![desc.ray_generation_stage.module, desc.ray_miss_stage.module] + hit_group_modules(desc.ray_hit_groups@)
}

/// A bind group layout slot made exclusive to `p` when `named` and the
/// layout is not exclusive yet.
pub open spec fn exclusive_slot(s: Slot<BindGroupLayout>, named: bool, p: ExclusivePipeline) -> Slot<BindGroupLayout> {
    match s.resource {
        Some(b) => if named && b.exclusive_pipeline is None {
            Slot { resource: Some(BindGroupLayout { exclusive_pipeline: Some(p), ..b }), registered: s.registered }
        } else {
            s
        },
        None => s,
    }
}

/// `slots` with every layout of `ids` made exclusive to `p`, unless it
/// already is exclusive to some pipeline.
pub open spec fn with_exclusive(slots: Seq<Slot<BindGroupLayout>>, ids: Seq<usize>, p: ExclusivePipeline) -> Seq<
    Slot<BindGroupLayout>,
> {
    Seq::new(slots.len(), |i: int| exclusive_slot(slots[i], ids.contains(i as usize), p))
}

/// `slots` with `values[k]` registered under `ids[k]`, in order.
pub open spec fn registered_all<T>(slots: Seq<Slot<T>>, ids: Seq<usize>, values: Seq<Option<T>>) -> Seq<Slot<T>>
    decreases ids.len(),
{
    if ids.len() == 0 || values.len() != ids.len() {
        slots
    } else {
        registered_at(registered_all(slots, ids.drop_last(), values.drop_last()), ids.last() as int, values.last())
    }
}

/// What the implicit group ids receive: on success, the layout's bind group
/// layouts (as `slots` hold them) for the first ids and nothing for the
/// rest; on an error, nothing.
pub open spec fn implicit_group_values(
    slots: Seq<Slot<BindGroupLayout>>,
    layouts: Seq<usize>,
    n: nat,
    ok: bool,
) -> Seq<Option<BindGroupLayout>> {
    Seq::new(n, |i: int| if ok && i < layouts.len() { slots[layouts[i] as int].resource } else { None })
}

/// The bind group layout slots after creating the pipeline `id`: a created
/// pipeline without a layout of its own makes its layout's bind group
/// layouts exclusive to it; then the implicit group ids are registered.
pub open spec fn bind_group_layouts_after(
    g: Global,
    dev: usize,
    desc: RayTracingPipelineDescriptor,
    id_given: bool,
    implicit: Option<ImplicitPipelineIds>,
    derived_layout: usize,
    id: usize,
    checks: Seq<Option<StageError>>,
    backend_error: Option<DeviceError>,
) -> Seq<Slot<BindGroupLayout>> {
    let layouts = g.pipeline_layouts.data(pipeline_layout_id(desc, derived_layout)).bind_group_layouts@;
    let excl = if pipeline_device_created(g, dev, desc, id_given, implicit, checks, backend_error) && desc.layout is None {
        with_exclusive(g.bind_group_layouts.slots@, layouts, ExclusivePipeline::RayTracing(id))
    } else {
        g.bind_group_layouts.slots@
    };
    match implicit {
        None => excl,
        Some(ids) => registered_all(
            excl,
            ids.group_ids@,
            implicit_group_values(
                excl,
                layouts,
                ids.group_ids@.len(),
                ray_tracing_pipeline_outcome(g, dev, desc, id_given, implicit, derived_layout, checks, backend_error) is Ok,
            ),
        ),
    }
}

/// `new` is `old` with an id registered at `id`, whatever it holds.
pub open spec fn registered_somehow<T>(new: Seq<Slot<T>>, old: Seq<Slot<T>>, id: int) -> bool {
    let shape = registered_at(old, id, None);
    &&& new.len() == shape.len()
    &&& forall|i: int| 0 <= i < new.len() && i != id ==> new[i] == shape[i]
    &&& new[id].registered
}

/// Two pipeline layouts with the same device, bind group layouts and push
/// constant ranges.
pub open spec fn same_pipeline_layout(a: PipelineLayout, b: PipelineLayout) -> bool {
    &&& a.device == b.device
    &&& a.bind_group_layouts@ == b.bind_group_layouts@
    &&& a.push_constant_ranges@ == b.push_constant_ranges@
}

/// The ids that a creation may register are free: the chosen pipeline id,
/// the implicit root layout id and the implicit group ids, which are
/// distinct.
pub open spec fn creation_ids_free(g: Global, id_in: Option<usize>, implicit: Option<ImplicitPipelineIds>) -> bool {
    &&& id_in is Some ==> g.ray_tracing_pipelines.is_free(id_in->0) && id_in->0 < usize::MAX
    &&& implicit is Some ==> {
        let ids = implicit->0;
        &&& g.pipeline_layouts.is_free(ids.root_id)
        &&& ids.root_id < usize::MAX
        &&& forall|k: int| 0 <= k < ids.group_ids@.len() ==> g.bind_group_layouts.is_free(#[trigger] ids.group_ids@[k])
            && ids.group_ids@[k] < usize::MAX
        &&& forall|k: int, j: int| 0 <= k < j < ids.group_ids@.len() ==> ids.group_ids@[k] != ids.group_ids@[j]
    }
}

/// Returns `stage_entry_points(eps@, stage)`.
fn count_stage_entry_points(eps: &Vec<ShaderEntryPoint>, stage: u32) -> (r: usize)
    ensures
        r == stage_entry_points(eps@, stage),
{
    let mut n: usize = 0;
    let mut i: usize = 0;
    assert(eps@.take(0) =~= Seq::<ShaderEntryPoint>::empty());
    while i < eps.len()
        invariant
            i <= eps@.len(),
            n == stage_entry_points(eps@.take(i as int), stage),
            n <= i,
        decreases eps@.len() - i,
    {
        assert(eps@.take(i as int + 1).drop_last() =~= eps@.take(i as int));
        assert(eps@.take(i as int + 1).last() == eps@[i as int]);
        if eps[i].stage == stage {
            n = n + 1;
        }
        i = i + 1;
    }
    assert(eps@.take(eps@.len() as int) =~= eps@);
    n
}

/// Returns `entry_point_error(*m, stage, *entry_point)`.
fn check_entry_point(m: &ShaderModule, stage: u32, entry_point: &Option<String>) -> (r: Option<StageError>)
    ensures
        r == entry_point_error(*m, stage, *entry_point),
{
    if entry_point.is_some() {
        return None;
    }
    match &m.interface {
        None => Some(StageError::NoEntryPointFound),
        Some(eps) => {
            let n = count_stage_entry_points(eps, stage);
            if n == 0 {
                Some(StageError::NoEntryPointFound)
            } else if n > 1 {
                Some(StageError::MultipleEntryPointsFound)
            } else {
                None
            }
        },
    }
}

/// Returns `stage_lookup_error(*g, stage, *d)`.
fn check_stage_lookup(g: &Global, stage: u32, d: &ProgrammableStageDescriptor) -> (r: Option<CreateRayTracingPipelineError>)
    requires
        g.shader_modules.has_id(d.module),
    ensures
        r == stage_lookup_error(*g, stage, *d),
{
    match g.shader_modules.get(d.module, ResourceKind::ShaderModule) {
        Ok(_) => None,
        Err(e) => Some(CreateRayTracingPipelineError::Stage { stage, error: StageError::InvalidResource(e) }),
    }
}

/// Every shader module that a descriptor names is registered, and so are
/// its layout and cache.
pub open spec fn pipeline_ids_registered(g: Global, desc: RayTracingPipelineDescriptor) -> bool {
    &&& desc.layout is Some ==> g.pipeline_layouts.has_id(desc.layout->0)
    &&& desc.cache is Some ==> g.pipeline_caches.has_id(desc.cache->0)
    &&& g.shader_modules.has_id(desc.ray_generation_stage.module)
    &&& g.shader_modules.has_id(desc.ray_miss_stage.module)
    &&& forall|k: int|
        0 <= k < desc.ray_hit_groups@.len() ==> {
            let h = #[trigger] desc.ray_hit_groups@[k];
            &&& g.shader_modules.has_id(h.ray_closest_hit_stage.module)
            &&& h.ray_any_hit_stage is Some ==> g.shader_modules.has_id(h.ray_any_hit_stage->0.module)
        }
}

/// Returns `resolution_error(*g, *desc)`.
fn check_resolution(g: &Global, desc: &RayTracingPipelineDescriptor) -> (r: Option<CreateRayTracingPipelineError>)
    requires
        pipeline_ids_registered(*g, *desc),
    ensures
        r == resolution_error(*g, *desc),
{
    if let Some(l) = desc.layout {
        if let Err(e) = g.pipeline_layouts.get(l, ResourceKind::PipelineLayout) {
            return Some(CreateRayTracingPipelineError::InvalidResource(e));
        }
    }
    if let Some(c) = desc.cache {
        if let Err(e) = g.pipeline_caches.get(c, ResourceKind::PipelineCache) {
            return Some(CreateRayTracingPipelineError::InvalidResource(e));
        }
    }
    let r = check_stage_lookup(g, SHADER_STAGE_RAY_GENERATION, &desc.ray_generation_stage);
    if r.is_some() {
        return r;
    }
    let r = check_stage_lookup(g, SHADER_STAGE_MISS, &desc.ray_miss_stage);
    if r.is_some() {
        return r;
    }
    let groups = &desc.ray_hit_groups;
    let mut k: usize = 0;
    assert(groups@.take(0) =~= Seq::<RayTracingHitGroupDescriptor>::empty());
    while k < groups.len()
        invariant
            k <= groups@.len(),
            groups@ == desc.ray_hit_groups@,
            pipeline_ids_registered(*g, *desc),
            desc.layout is Some ==> g.pipeline_layouts.is_valid(desc.layout->0),
            desc.cache is Some ==> g.pipeline_caches.is_valid(desc.cache->0),
            stage_lookup_error(*g, SHADER_STAGE_RAY_GENERATION, desc.ray_generation_stage) is None,
            stage_lookup_error(*g, SHADER_STAGE_MISS, desc.ray_miss_stage) is None,
            hit_groups_lookup_error(*g, groups@.take(k as int)) is None,
        decreases groups@.len() - k,
    {
        assert(groups@.take(k as int + 1).drop_last() =~= groups@.take(k as int));
        assert(groups@.take(k as int + 1).last() == groups@[k as int]);
        let h = &groups[k];
        let mut r = check_stage_lookup(g, SHADER_STAGE_CLOSEST_HIT, &h.ray_closest_hit_stage);
        if r.is_none() {
            if let Some(a) = &h.ray_any_hit_stage {
                r = check_stage_lookup(g, SHADER_STAGE_ANY_HIT, a);
            }
        }
        if r.is_some() {
            proof {
                lemma_hit_groups_lookup_persists(*g, groups@, k as int + 1);
            }
            return r;
        }
        k = k + 1;
    }
    assert(groups@.take(groups@.len() as int) =~= groups@);
    None
}

/// Once the lookups of a prefix of the groups fail, all of them fail the same way.
proof fn lemma_hit_groups_lookup_persists(g: Global, groups: Seq<RayTracingHitGroupDescriptor>, i: int)
    requires
        0 <= i <= groups.len(),
        hit_groups_lookup_error(g, groups.take(i)) is Some,
    ensures
        hit_groups_lookup_error(g, groups) == hit_groups_lookup_error(g, groups.take(i)),
    decreases groups.len() - i,
{
    if i == groups.len() {
        assert(groups.take(i) =~= groups);
    } else {
        assert(groups.take(i + 1).drop_last() =~= groups.take(i));
        lemma_hit_groups_lookup_persists(g, groups, i + 1);
    }
}

/// Once the checks of a prefix of the groups fail, all of them fail the same way.
proof fn lemma_hit_groups_creation_persists(g: Global, dev: usize, groups: Seq<RayTracingHitGroupDescriptor>, i: int)
    requires
        0 <= i <= groups.len(),
        hit_groups_creation_error(g, dev, groups.take(i)) is Some,
    ensures
        hit_groups_creation_error(g, dev, groups) == hit_groups_creation_error(g, dev, groups.take(i)),
    decreases groups.len() - i,
{
    if i == groups.len() {
        assert(groups.take(i) =~= groups);
    } else {
        assert(groups.take(i + 1).drop_last() =~= groups.take(i));
        lemma_hit_groups_creation_persists(g, dev, groups, i + 1);
    }
}

/// Once the named entry point checks of a prefix of the groups fail, all of
/// them fail the same way.
proof fn lemma_hit_groups_named_persists(
    g: Global,
    groups: Seq<RayTracingHitGroupDescriptor>,
    checks: Seq<Option<StageError>>,
    i: int,
)
    requires
        0 <= i <= groups.len(),
        hit_groups_named_error(g, groups.take(i), checks) is Some,
    ensures
        hit_groups_named_error(g, groups, checks) == hit_groups_named_error(g, groups.take(i), checks),
    decreases groups.len() - i,
{
    if i == groups.len() {
        assert(groups.take(i) =~= groups);
    } else {
        assert(groups.take(i + 1).drop_last() =~= groups.take(i));
        lemma_hit_groups_named_persists(g, groups, checks, i + 1);
    }
}

/// When the lookups of all groups pass, each group's modules are valid.
proof fn lemma_hit_groups_lookup_ok(g: Global, groups: Seq<RayTracingHitGroupDescriptor>)
    requires
        hit_groups_lookup_error(g, groups) is None,
    ensures
        forall|k: int|
            0 <= k < groups.len() ==> {
                let h = #[trigger] groups[k];
                &&& g.shader_modules.is_valid(h.ray_closest_hit_stage.module)
                &&& h.ray_any_hit_stage is Some ==> g.shader_modules.is_valid(h.ray_any_hit_stage->0.module)
            },
    decreases groups.len(),
{
    if groups.len() > 0 {
        lemma_hit_groups_lookup_ok(g, groups.drop_last());
        assert forall|k: int| 0 <= k < groups.len() - 1 implies groups[k] == groups.drop_last()[k] by {}
    }
}

/// Returns `named_entry_point_error(*m, stage, *entry_point)`.
fn check_named_entry_point(m: &ShaderModule, stage: u32, entry_point: &Option<String>) -> (r: Option<StageError>)
    ensures
        r == named_entry_point_error(*m, stage, *entry_point),
{
    match entry_point {
        Some(n) => match &m.interface {
          None => None,
          Some(eps) => {
            let mut i: usize = 0;
            while i < eps.len()
                invariant
                    i <= eps@.len(),
                    forall|j: int| 0 <= j < i ==> !((#[trigger] eps@[j]).stage == stage && eps@[j].name@ == n@),
                    m.interface == Some(*eps),
                    *entry_point == Some(*n),
                decreases eps@.len() - i,
            {
                if eps[i].stage == stage && eps[i].name == *n {
                    assert(eps@[i as int].stage == stage && eps@[i as int].name@ == n@);
                    assert(has_entry_point(eps@, stage, n@));
                    assert(m.interface == Some(*eps));
                    assert(*entry_point == Some(*n));
                    return None;
                }
                i = i + 1;
            }
            Some(StageError::MissingEntryPoint(n.clone()))
          },
        },
        None => None,
    }
}

/// Returns a copy of `e`.
fn clone_stage_error(e: &StageError) -> (r: StageError)
    ensures
        r == *e,
{
    match e {
        StageError::InvalidResource(x) => StageError::InvalidResource(*x),
        StageError::NoEntryPointFound => StageError::NoEntryPointFound,
        StageError::MultipleEntryPointsFound => StageError::MultipleEntryPointsFound,
        StageError::MissingEntryPoint(n) => StageError::MissingEntryPoint(n.clone()),
        StageError::InterfaceMismatch(n) => StageError::InterfaceMismatch(n.clone()),
    }
}

/// Returns `check_at(checks@, k)` for `k` below `checks@.len()`, and no
/// error from `checks@.len()` on.
fn check_of(checks: &Vec<Option<StageError>>, k: usize) -> (r: Option<StageError>)
    ensures
        r == check_at(checks@, k as int),
{
    if k < checks.len() {
        match &checks[k] {
            Some(e) => Some(clone_stage_error(e)),
            None => None,
        }
    } else {
        None
    }
}

/// Returns `stage_named_error(*g, stage, *d, check)` for a stage whose
/// module is valid.
fn check_stage_named(g: &Global, stage: u32, d: &ProgrammableStageDescriptor, check: Option<StageError>) -> (r: Option<
    CreateRayTracingPipelineError,
>)
    requires
        g.shader_modules.is_valid(d.module),
    ensures
        r == stage_named_error(*g, stage, *d, check),
{
    let m = g.shader_modules.resource(d.module);
    match check_named_entry_point(m, stage, &d.entry_point) {
        Some(e) => Some(CreateRayTracingPipelineError::Stage { stage, error: e }),
        None => match check {
            Some(e) => Some(CreateRayTracingPipelineError::Stage { stage, error: e }),
            None => None,
        },
    }
}

/// Returns `stage_creation_error(*g, dev, stage, *d, check)` for a stage whose
/// module is valid.
fn check_stage_creation(
    g: &Global,
    dev: usize,
    stage: u32,
    d: &ProgrammableStageDescriptor,
    check: Option<StageError>,
) -> (r: Option<CreateRayTracingPipelineError>)
    requires
        g.shader_modules.is_valid(d.module),
    ensures
        r == stage_creation_error(*g, dev, stage, *d, check),
{
    let r = check_stage_finalize(g, dev, stage, d);
    if r.is_some() {
        return r;
    }
    check_stage_named(g, stage, d, check)
}

/// Returns `stage_finalize_error(*g, dev, stage, *d)` for a stage whose
/// module is valid.
fn check_stage_finalize(g: &Global, dev: usize, stage: u32, d: &ProgrammableStageDescriptor) -> (r: Option<
    CreateRayTracingPipelineError,
>)
    requires
        g.shader_modules.is_valid(d.module),
    ensures
        r == stage_finalize_error(*g, dev, stage, *d),
{
    let m = g.shader_modules.resource(d.module);
    if m.device != dev {
        return Some(
            CreateRayTracingPipelineError::Device(DeviceError::DeviceMismatch { kind: ResourceKind::ShaderModule, id: d.module }),
        );
    }
    match check_entry_point(m, stage, &d.entry_point) {
        Some(e) => Some(CreateRayTracingPipelineError::Stage { stage, error: e }),
        None => None,
    }
}

/// Returns `creation_error(*g, dev, *desc)` for a descriptor whose ids resolve.
#[verifier::loop_isolation(false)]
fn check_creation(
    g: &Global,
    dev: usize,
    desc: &RayTracingPipelineDescriptor,
    checks: &Vec<Option<StageError>>,
    backend_error: Option<DeviceError>,
) -> (r: Option<
    CreateRayTracingPipelineError,
>)
    requires
        dev < g.devices@.len(),
        pipeline_ids_registered(*g, *desc),
        resolution_error(*g, *desc) is None,
    ensures
        r == creation_error(*g, dev, *desc, checks@, backend_error),
{
    let device = &g.devices[dev];
    if !device.valid {
        return Some(CreateRayTracingPipelineError::Device(DeviceError::Invalid));
    }
    if !device.features.ray_tracing_pipelines {
        return Some(CreateRayTracingPipelineError::MissingFeature(MissingFeature::RayTracingPipelines));
    }
    if desc.max_recursion_depth == 0 {
        return Some(CreateRayTracingPipelineError::ZeroMaxRecursionDepth);
    }
    if let Some(l) = desc.layout {
        if g.pipeline_layouts.resource(l).device != dev {
            return Some(
                CreateRayTracingPipelineError::Device(DeviceError::DeviceMismatch { kind: ResourceKind::PipelineLayout, id: l }),
            );
        }
    }
    let r = check_stage_creation(g, dev, SHADER_STAGE_RAY_GENERATION, &desc.ray_generation_stage, check_of(checks, 0));
    if r.is_some() {
        return r;
    }
    let r = check_stage_creation(g, dev, SHADER_STAGE_MISS, &desc.ray_miss_stage, check_of(checks, 1));
    if r.is_some() {
        return r;
    }
    let groups = &desc.ray_hit_groups;
    proof {
        lemma_hit_groups_lookup_ok(*g, groups@);
    }
    let mut k: usize = 0;
    assert(groups@.take(0) =~= Seq::<RayTracingHitGroupDescriptor>::empty());
    while k < groups.len()
        invariant
            k <= groups@.len(),
            groups@ == desc.ray_hit_groups@,
            dev < g.devices@.len(),
            g.devices@[dev as int].valid,
            g.devices@[dev as int].features.ray_tracing_pipelines,
            desc.max_recursion_depth != 0,
            desc.layout is Some ==> g.pipeline_layouts.data(desc.layout->0).device == dev,
            stage_creation_error(*g, dev, SHADER_STAGE_RAY_GENERATION, desc.ray_generation_stage, check_at(checks@, 0)) is None,
            stage_creation_error(*g, dev, SHADER_STAGE_MISS, desc.ray_miss_stage, check_at(checks@, 1)) is None,
            pipeline_ids_registered(*g, *desc),
            resolution_error(*g, *desc) is None,
            forall|k: int|
                0 <= k < groups@.len() ==> {
                    let h = #[trigger] groups@[k];
                    &&& g.shader_modules.is_valid(h.ray_closest_hit_stage.module)
                    &&& h.ray_any_hit_stage is Some ==> g.shader_modules.is_valid(h.ray_any_hit_stage->0.module)
                },
            hit_groups_creation_error(*g, dev, groups@.take(k as int)) is None,
        decreases groups@.len() - k,
    {
        assert(groups@.take(k as int + 1).drop_last() =~= groups@.take(k as int));
        assert(groups@.take(k as int + 1).last() == groups@[k as int]);
        let h = &groups[k];
        let mut r = check_stage_finalize(g, dev, SHADER_STAGE_CLOSEST_HIT, &h.ray_closest_hit_stage);
        if r.is_none() {
            if let Some(a) = &h.ray_any_hit_stage {
                r = check_stage_finalize(g, dev, SHADER_STAGE_ANY_HIT, a);
            }
        }
        if r.is_some() {
            proof {
                lemma_hit_groups_creation_persists(*g, dev, groups@, k as int + 1);
            }
            return r;
        }
        k = k + 1;
    }
    assert(groups@.take(groups@.len() as int) =~= groups@);
    let mut k: usize = 0;
    let n_checks = checks.len();
    let mut idx: usize = if 2 < n_checks { 2 } else { n_checks };
    assert(groups@.take(0) =~= Seq::<RayTracingHitGroupDescriptor>::empty());
    while k < groups.len()
        invariant
            k <= groups@.len(),
            groups@ == desc.ray_hit_groups@,
            n_checks == checks@.len(),
            forall|k: int|
                0 <= k < groups@.len() ==> {
                    let h = #[trigger] groups@[k];
                    &&& g.shader_modules.is_valid(h.ray_closest_hit_stage.module)
                    &&& h.ray_any_hit_stage is Some ==> g.shader_modules.is_valid(h.ray_any_hit_stage->0.module)
                },
            idx == capped(2 + hit_group_modules(groups@.take(k as int)).len() as int, n_checks as int),
            hit_groups_named_error(*g, groups@.take(k as int), checks@) is None,
        decreases groups@.len() - k,
    {
        assert(groups@.take(k as int + 1).drop_last() =~= groups@.take(k as int));
        assert(groups@.take(k as int + 1).last() == groups@[k as int]);
        let ghost base: int = 2 + hit_group_modules(groups@.take(k as int)).len() as int;
        let h = &groups[k];
        let idx_any = if idx < n_checks { idx + 1 } else { idx };
        let mut r = check_stage_named(g, SHADER_STAGE_CLOSEST_HIT, &h.ray_closest_hit_stage, check_of(checks, idx));
        if r.is_none() {
            if let Some(a) = &h.ray_any_hit_stage {
                r = check_stage_named(g, SHADER_STAGE_ANY_HIT, a, check_of(checks, idx_any));
            }
        }
        if r.is_some() {
            proof {
                lemma_hit_groups_named_persists(*g, groups@, checks@, k as int + 1);
            }
            return r;
        }
        idx = match &h.ray_any_hit_stage {
            Some(_) => if idx_any < n_checks { idx_any + 1 } else { idx_any },
            None => idx_any,
        };
        k = k + 1;
    }
    assert(groups@.take(groups@.len() as int) =~= groups@);
    if let Some(c) = desc.cache {
        if g.pipeline_caches.resource(c).device != dev {
            return Some(
                CreateRayTracingPipelineError::Device(DeviceError::DeviceMismatch { kind: ResourceKind::PipelineCache, id: c }),
            );
        }
    }
    match backend_error {
        Some(e) => Some(CreateRayTracingPipelineError::Device(e)),
        None => None,
    }
}

/// Registering at a free id keeps every slot that holds data as it is.
proof fn lemma_registered_at_keeps<T>(slots: Seq<Slot<T>>, id: int, r: Option<T>)
    requires
        !(0 <= id < slots.len() && slots[id].resource is Some),
    ensures
        forall|i: int| 0 <= i < slots.len() && slots[i].resource is Some ==> #[trigger] registered_at(slots, id, r)[i] == slots[i],
        registered_at(slots, id, r).len() >= slots.len(),
{
}

/// Registering at free ids keeps every slot that holds data, and every
/// slot that then holds data holds either old data or one of `values`.
proof fn lemma_registered_all_keeps<T>(slots: Seq<Slot<T>>, ids: Seq<usize>, values: Seq<Option<T>>, pred: spec_fn(T) -> bool)
    requires
        values.len() == ids.len(),
        forall|k: int| 0 <= k < ids.len() ==> !((#[trigger] ids[k]) < slots.len() && slots[ids[k] as int].resource is Some),
        forall|i: int| 0 <= i < slots.len() && (#[trigger] slots[i]).resource is Some ==> pred(slots[i].resource->0),
        forall|k: int| 0 <= k < values.len() && (#[trigger] values[k]) is Some ==> pred(values[k]->0),
    ensures
        registered_all(slots, ids, values).len() >= slots.len(),
        forall|i: int| 0 <= i < slots.len() && slots[i].resource is Some ==> #[trigger] registered_all(slots, ids, values)[i] == slots[i],
        forall|i: int|
            0 <= i < registered_all(slots, ids, values).len() && (#[trigger] registered_all(slots, ids, values)[i]).resource is Some
                ==> pred(registered_all(slots, ids, values)[i].resource->0),
    decreases ids.len(),
{
    if ids.len() > 0 {
        let ids0 = ids.drop_last();
        let values0 = values.drop_last();
        assert forall|k: int| 0 <= k < ids0.len() implies !((#[trigger] ids0[k]) < slots.len() && slots[ids0[k] as int].resource is Some) by {
            assert(ids0[k] == ids[k]);
        }
        assert forall|k: int| 0 <= k < values0.len() && (#[trigger] values0[k]) is Some implies pred(values0[k]->0) by {
            assert(values0[k] == values[k]);
        }
        lemma_registered_all_keeps(slots, ids0, values0, pred);
        let mid = registered_all(slots, ids0, values0);
        let last = ids.last() as int;
        assert(ids[ids.len() - 1] == ids.last());
        if 0 <= last < mid.len() && mid[last].resource is Some {
            assert(pred(mid[last].resource->0));
        }
        assert(values[values.len() - 1] == values.last());
    }
}

/// Returns the modules of all stages of `desc` (see `stage_modules`).
fn collect_stage_modules(desc: &RayTracingPipelineDescriptor) -> (r: Vec<usize>)
    ensures
        r@ == stage_modules(*desc),
{
    let mut r: Vec<usize> = Vec::new();
    r.push(desc.ray_generation_stage.module);
    r.push(desc.ray_miss_stage.module);
    let groups = &desc.ray_hit_groups;
    let mut k: usize = 0;
    assert(groups@.take(0) =~= Seq::<RayTracingHitGroupDescriptor>::empty());
    assert(r@ =~= seq![desc.ray_generation_stage.module, desc.ray_miss_stage.module] + hit_group_modules(groups@.take(0)));
    while k < groups.len()
        invariant
            k <= groups@.len(),
            groups@ == desc.ray_hit_groups@,
            r@ == seq![desc.ray_generation_stage.module, desc.ray_miss_stage.module] + hit_group_modules(groups@.take(k as int)),
        decreases groups@.len() - k,
    {
        assert(groups@.take(k as int + 1).drop_last() =~= groups@.take(k as int));
        assert(groups@.take(k as int + 1).last() == groups@[k as int]);
        let h = &groups[k];
        r.push(h.ray_closest_hit_stage.module);
        if let Some(a) = &h.ray_any_hit_stage {
            r.push(a.module);
        }
        k = k + 1;
        assert(r@ =~= seq![desc.ray_generation_stage.module, desc.ray_miss_stage.module] + hit_group_modules(
            groups@.take(k as int),
        ));
    }
    assert(groups@.take(groups@.len() as int) =~= groups@);
    r
}

/// Makes the layouts of `ids` exclusive to `p` (see `with_exclusive`).
fn make_exclusive(reg: &mut Registry<BindGroupLayout>, ids: &Vec<usize>, p: ExclusivePipeline)
    ensures
        final(reg).slots@ == with_exclusive(old(reg).slots@, ids@, p),
{
    let ghost orig = old(reg).slots@;
    assert(orig =~= with_exclusive(orig, ids@.take(0), p));
    let mut k: usize = 0;
    while k < ids.len()
        invariant
            k <= ids@.len(),
            reg.slots@ == with_exclusive(orig, ids@.take(k as int), p),
        decreases ids@.len() - k,
    {
        let id = ids[k];
        let ghost before = reg.slots@;
        if id < reg.slots.len() {
            let registered = reg.slots[id].registered;
            match reg.slots[id].resource {
                Some(b) => {
                    if b.exclusive_pipeline.is_none() {
                        reg.slots.set(
                            id,
                            Slot { resource: Some(BindGroupLayout { exclusive_pipeline: Some(p), ..b }), registered },
                        );
                    }
                },
                None => {},
            }
        }
        proof {
            let t0 = ids@.take(k as int);
            let t1 = ids@.take(k as int + 1);
            assert forall|i: int| 0 <= i < reg.slots@.len() implies #[trigger] reg.slots@[i] == with_exclusive(orig, t1, p)[i] by {
                assert(t1[k as int] == id);
                if t0.contains(i as usize) {
                    let j = choose|j: int| 0 <= j < t0.len() && t0[j] == i as usize;
                    assert(t1[j] == i as usize);
                }
                if t1.contains(i as usize) && i != id as int {
                    let j = choose|j: int| 0 <= j < t1.len() && t1[j] == i as usize;
                    assert(t0[j] == i as usize);
                }
            }
        }
        k = k + 1;
        assert(reg.slots@ =~= with_exclusive(orig, ids@.take(k as int), p));
    }
    assert(ids@.take(ids@.len() as int) =~= ids@);
}

/// Registers `values[k]` under `ids[k]`, in order (see `registered_all`).
fn register_group_ids(reg: &mut Registry<BindGroupLayout>, ids: &Vec<usize>, values: &Vec<Option<BindGroupLayout>>)
    requires
        values@.len() == ids@.len(),
        forall|k: int| 0 <= k < ids@.len() ==> old(reg).is_free(#[trigger] ids@[k]) && ids@[k] < usize::MAX,
        forall|k: int, j: int| 0 <= k < j < ids@.len() ==> ids@[k] != ids@[j],
    ensures
        final(reg).slots@ == registered_all(old(reg).slots@, ids@, values@),
{
    let ghost orig = old(reg).slots@;
    assert(ids@.take(0).len() == 0);
    let mut k: usize = 0;
    while k < ids.len()
        invariant
            k <= ids@.len(),
            values@.len() == ids@.len(),
            reg.slots@ == registered_all(orig, ids@.take(k as int), values@.take(k as int)),
            forall|j: int| k <= j < ids@.len() ==> reg.is_free(#[trigger] ids@[j]) && ids@[j] < usize::MAX,
            forall|k: int, j: int| 0 <= k < j < ids@.len() ==> ids@[k] != ids@[j],
        decreases ids@.len() - k,
    {
        let ghost before = reg.slots@;
        reg.register_at(ids[k], values[k]);
        proof {
            assert(ids@.take(k as int + 1).drop_last() =~= ids@.take(k as int));
            assert(values@.take(k as int + 1).drop_last() =~= values@.take(k as int));
            assert forall|j: int| k + 1 <= j < ids@.len() implies reg.is_free(#[trigger] ids@[j]) by {
                assert(ids@[j] != ids@[k as int]);
                assert(ids@[j] < before.len() ==> reg.slots@[ids@[j] as int] == before[ids@[j] as int]);
            }
        }
        k = k + 1;
    }
    assert(ids@.take(ids@.len() as int) =~= ids@);
    assert(values@.take(values@.len() as int) =~= values@);
}

/// Returns a copy of `ranges`.
fn copy_ranges(ranges: &Vec<PushConstantRange>) -> (r: Vec<PushConstantRange>)
    ensures
        r@ == ranges@,
{
    let mut r: Vec<PushConstantRange> = Vec::new();
    let mut i: usize = 0;
    while i < ranges.len()
        invariant
            i <= ranges@.len(),
            r@ == ranges@.take(i as int),
        decreases ranges@.len() - i,
    {
        r.push(ranges[i]);
        i = i + 1;
        assert(r@ =~= ranges@.take(i as int));
    }
    assert(ranges@.take(ranges@.len() as int) =~= ranges@);
    r
}

/// Returns a copy of pipeline layout `l`.
fn copy_pipeline_layout(l: &PipelineLayout) -> (r: PipelineLayout)
    ensures
        same_pipeline_layout(r, *l),
{
    PipelineLayout {
        device: l.device,
        bind_group_layouts: crate::as_submit::copy_ids(&l.bind_group_layouts),
        push_constant_ranges: copy_ranges(&l.push_constant_ranges),
    }
}

impl Global {
    /// Creates a ray tracing pipeline on device `device_id` and registers it,
    /// as `ray_tracing_pipeline_outcome` says, under `id_in` when the caller
    /// chose an id and under a new id otherwise: on an error the id is
    /// registered as invalid and the error returned.
    ///
    /// When the device creates the pipeline and the descriptor names no
    /// layout, the bind group layouts of the pipeline's layout become
    /// exclusive to it.  `implicit_pipeline_ids` are the ids the caller
    /// reserved for the derived layout: on success the root id receives the
    /// pipeline's layout, the first group ids its bind group layouts and the
    /// rest are registered as invalid; on an error all of them are registered
    /// as invalid.  `derived_layout` is the layout derived from the shaders,
    /// used when the descriptor has none; `stage_checks` what the shader
    /// validation found when it checked each stage's bindings against the
    /// layout, one per stage in the order of `stage_modules` (a stage past
    /// its end passed); `backend_error` what the backend reported when it
    /// created the pipeline and its shader binding table (checked after
    /// the cache); `late_sized_buffer_groups` the
    /// minimum sizes that the shaders need of late-sized buffer bindings, and
    /// `shader_binding_data` the shader binding table that the backend made;
    /// the pipeline keeps both.
    pub fn device_create_ray_tracing_pipeline(
        &mut self,
        device_id: usize,
        desc: &RayTracingPipelineDescriptor,
        id_in: Option<usize>,
        implicit_pipeline_ids: Option<ImplicitPipelineIds>,
        derived_layout: usize,
        stage_checks: Vec<Option<StageError>>,
        backend_error: Option<DeviceError>,
        late_sized_buffer_groups: Vec<Vec<u64>>,
        shader_binding_data: ShaderBindingData,
    ) -> (r: (usize, Option<CreateRayTracingPipelineError>))
        requires
            old(self).well_formed(),
            device_id < old(self).devices@.len(),
            old(self).ray_tracing_pipelines.slots@.len() < usize::MAX,
            pipeline_ids_registered(*old(self), *desc),
            desc.layout is None ==> old(self).pipeline_layouts.holds(derived_layout),
            creation_ids_free(*old(self), id_in, implicit_pipeline_ids),
        ensures
            final(self).well_formed(),
            ({
                let g = *old(self);
                let id_given = id_in is Some;
                let outcome = ray_tracing_pipeline_outcome(
                    g,
                    device_id,
                    *desc,
                    id_given,
                    implicit_pipeline_ids,
                    derived_layout,
                    stage_checks@,
                    backend_error,
                );
                let slot = final(self).ray_tracing_pipelines.slots@[r.0 as int];
                let layout = pipeline_layout_id(*desc, derived_layout);
                &&& r.0 == match id_in {
                    Some(i) => i,
                    None => g.ray_tracing_pipelines.slots@.len() as usize,
                }
                &&& registered_somehow(final(self).ray_tracing_pipelines.slots@, g.ray_tracing_pipelines.slots@, r.0 as int)
                &&& match outcome {
                    Ok(l) => {
                        &&& r.1 is None
                        &&& slot.resource is Some
                        &&& slot.resource->0.device == device_id
                        &&& slot.resource->0.layout == l
                        &&& slot.resource->0.num_hit_groups == count_as_u32(desc.ray_hit_groups@.len())
                        &&& slot.resource->0.label == desc.label
                        &&& slot.resource->0.late_sized_buffer_groups == late_sized_buffer_groups
                        &&& slot.resource->0.shader_binding_data == shader_binding_data
                        &&& slot.resource->0.shader_modules@ == stage_modules(*desc)
                    },
                    Err(e) => r.1 == Some(e) && slot.resource is None,
                }
                &&& final(self).bind_group_layouts.slots@ == bind_group_layouts_after(
                    g,
                    device_id,
                    *desc,
                    id_given,
                    implicit_pipeline_ids,
                    derived_layout,
                    r.0,
                    stage_checks@,
                    backend_error,
                )
                &&& match implicit_pipeline_ids {
                    None => final(self).pipeline_layouts == g.pipeline_layouts,
                    Some(ids) => {
                        let root = final(self).pipeline_layouts.slots@[ids.root_id as int];
                        &&& registered_somehow(final(self).pipeline_layouts.slots@, g.pipeline_layouts.slots@, ids.root_id as int)
                        &&& outcome is Ok ==> root.resource is Some && same_pipeline_layout(
                            root.resource->0,
                            g.pipeline_layouts.data(layout),
                        )
                        &&& outcome is Err ==> root.resource is None
                    },
                }
                &&& *final(self) == (Global {
                    ray_tracing_pipelines: final(self).ray_tracing_pipelines,
                    bind_group_layouts: final(self).bind_group_layouts,
                    pipeline_layouts: final(self).pipeline_layouts,
                    ..g
                })
            }),
    {
        let ghost old_g = *self;
        let id = match id_in {
            Some(i) => i,
            None => self.ray_tracing_pipelines.slots.len(),
        };
        let layout = match desc.layout {
            Some(l) => l,
            None => derived_layout,
        };
        let mut created = false;
        let error = if desc.layout.is_none() && id_in.is_some() && implicit_pipeline_ids.is_none() {
            Some(CreateRayTracingPipelineError::Implicit(ImplicitLayoutError::MissingImplicitPipelineIds))
        } else {
            let r = check_resolution(self, desc);
            if r.is_some() {
                r
            } else {
                let r = check_creation(self, device_id, desc, &stage_checks, backend_error);
                if r.is_some() {
                    r
                } else {
                    created = true;
                    let group_count = self.pipeline_layouts.resource(layout).bind_group_layouts.len();
                    match &implicit_pipeline_ids {
                        Some(ids) => if ids.group_ids.len() < group_count {
                            #[verifier::truncate]
                            let count = group_count as u32;
                            Some(CreateRayTracingPipelineError::Implicit(ImplicitLayoutError::MissingIds(count)))
                        } else {
                            None
                        },
                        None => None,
                    }
                }
            }
        };
        assert(created == pipeline_device_created(old_g, device_id, *desc, id_in is Some, implicit_pipeline_ids, stage_checks@, backend_error));
        assert(error is None <==> ray_tracing_pipeline_outcome(
            old_g,
            device_id,
            *desc,
            id_in is Some,
            implicit_pipeline_ids,
            derived_layout,
            stage_checks@,
            backend_error,
        ) is Ok);
        let ok = error.is_none();
        let layout_bgls = if created {
            assert(self.pipeline_layouts.holds(layout));
            crate::as_submit::copy_ids(&self.pipeline_layouts.resource(layout).bind_group_layouts)
        } else {
            Vec::new()
        };
        assert(created ==> layout_bgls@ == old_g.pipeline_layouts.data(layout).bind_group_layouts@);
        assert(ok ==> created);
        if created && desc.layout.is_none() {
            make_exclusive(&mut self.bind_group_layouts, &layout_bgls, ExclusivePipeline::RayTracing(id));
        }
        let ghost excl = self.bind_group_layouts.slots@;
        let excl_len = self.bind_group_layouts.slots.len();
        proof {
            assert(excl.len() == old_g.bind_group_layouts.slots@.len());
            assert(excl.len() == excl_len);
            assert forall|j: int| 0 <= j < excl.len() implies ((#[trigger] excl[j]).resource is Some
                <==> old_g.bind_group_layouts.slots@[j].resource is Some) && excl[j].registered
                == old_g.bind_group_layouts.slots@[j].registered && (excl[j].resource is Some ==> excl[j].resource->0.device
                == old_g.bind_group_layouts.slots@[j].resource->0.device) by {}
            assert forall|i: usize| #[trigger] self.bind_group_layouts.holds(i) <==> old_g.bind_group_layouts.holds(i) by {}
            assert forall|i: usize| #[trigger] self.bind_group_layouts.has_id(i) <==> old_g.bind_group_layouts.has_id(i) by {}
            assert forall|i: usize| #[trigger] self.bind_group_layouts.holds(i) ==> self.bind_group_layouts.data(i).device
                == old_g.bind_group_layouts.data(i).device by {}
        }
        match &implicit_pipeline_ids {
            Some(ids) => {
                let root = if ok {
                    Some(copy_pipeline_layout(self.pipeline_layouts.resource(layout)))
                } else {
                    None
                };
                let mut values: Vec<Option<BindGroupLayout>> = Vec::new();
                let n = ids.group_ids.len();
                let mut i: usize = 0;
                while i < n
                    invariant
                        i <= n,
                        n == ids.group_ids@.len(),
                        values@ == implicit_group_values(excl, layout_bgls@, n as nat, ok).take(i as int),
                        self.bind_group_layouts.slots@ == excl,
                        forall|j: int| 0 <= j < layout_bgls@.len() ==> self.bind_group_layouts.holds(#[trigger] layout_bgls@[j]),
                    decreases n - i,
                {
                    if ok && i < layout_bgls.len() {
                        values.push(self.bind_group_layouts.slots[layout_bgls[i]].resource);
                    } else {
                        values.push(None);
                    }
                    i = i + 1;
                    assert(values@ =~= implicit_group_values(excl, layout_bgls@, n as nat, ok).take(i as int));
                }
                assert(values@ =~= implicit_group_values(excl, layout_bgls@, n as nat, ok));
                assert(implicit_group_values(excl, layout_bgls@, n as nat, ok) =~= implicit_group_values(
                    excl,
                    old_g.pipeline_layouts.data(layout).bind_group_layouts@,
                    n as nat,
                    ok,
                ));
                register_group_ids(&mut self.bind_group_layouts, &ids.group_ids, &values);
                self.pipeline_layouts.register_at(ids.root_id, root);
            },
            None => {},
        }
        #[verifier::truncate]
        let num_hit_groups = desc.ray_hit_groups.len() as u32;
        let resource = match error {
            Some(_) => None,
            None => {
                let label = match &desc.label {
                    Some(l) => Some(l.clone()),
                    None => None,
                };
                Some(RayTracingPipeline {
                    device: device_id,
                    layout,
                    num_hit_groups,
                    late_sized_buffer_groups,
                    shader_binding_data,
                    label,
                    shader_modules: collect_stage_modules(desc),
                })
            },
        };
        self.ray_tracing_pipelines.register_at(id, resource);
        proof {
            let nd = old_g.devices@.len();
            let new_b = self.bind_group_layouts.slots@;
            let new_p = self.pipeline_layouts.slots@;
            // Bind group layouts: held ones stay, new ones belong to a device.
            assert forall|i: int| 0 <= i < new_b.len() && (#[trigger] new_b[i]).resource is Some implies new_b[i].resource->0.device
                < nd && (0 <= i < excl.len() && excl[i].resource is Some ==> new_b[i] == excl[i]) by {
                match implicit_pipeline_ids {
                    Some(ids) => {
                        let values = implicit_group_values(excl, layout_bgls@, ids.group_ids@.len(), ok);
                        let pred = |b: BindGroupLayout| b.device < nd;
                        assert forall|k: int| 0 <= k < ids.group_ids@.len() implies !((#[trigger] ids.group_ids@[k]) < excl.len()
                            && excl[ids.group_ids@[k] as int].resource is Some) by {
                            assert(old_g.bind_group_layouts.is_free(ids.group_ids@[k]));
                        }
                        assert forall|j: int| 0 <= j < excl.len() && (#[trigger] excl[j]).resource is Some implies pred(
                            excl[j].resource->0,
                        ) by {
                            assert(old_g.bind_group_layouts.holds(j as usize));
                        }
                        assert forall|k: int| 0 <= k < values.len() && (#[trigger] values[k]) is Some implies pred(values[k]->0) by {
                            let b = layout_bgls@[k];
                            assert(old_g.bind_group_layouts.holds(b));
                        }
                        lemma_registered_all_keeps(excl, ids.group_ids@, values, pred);
                    },
                    None => {
                        assert(old_g.bind_group_layouts.holds(i as usize));
                    },
                }
            }
            assert forall|i: usize| #[trigger] old_g.bind_group_layouts.holds(i) implies self.bind_group_layouts.holds(i) by {
                assert(excl[i as int].resource is Some);
                if implicit_pipeline_ids is Some {
                    let ids = implicit_pipeline_ids->0;
                    let values = implicit_group_values(excl, layout_bgls@, ids.group_ids@.len(), ok);
                    assert forall|k: int| 0 <= k < ids.group_ids@.len() implies !((#[trigger] ids.group_ids@[k]) < excl.len()
                        && excl[ids.group_ids@[k] as int].resource is Some) by {
                        assert(old_g.bind_group_layouts.is_free(ids.group_ids@[k]));
                    }
                    lemma_registered_all_keeps(excl, ids.group_ids@, values, |b: BindGroupLayout| true);
                }
            }
            // Pipeline layouts: held ones stay, the root copies the layout.
            assert forall|i: usize| #[trigger] old_g.pipeline_layouts.holds(i) implies self.pipeline_layouts.holds(i)
                && self.pipeline_layouts.data(i) == old_g.pipeline_layouts.data(i) by {
                if implicit_pipeline_ids is Some {
                    assert(old_g.pipeline_layouts.is_free(implicit_pipeline_ids->0.root_id));
                }
            }
            assert forall|i: usize| #[trigger] self.pipeline_layouts.holds(i) implies self.pipeline_layouts.data(i).device < nd
                && self.pipeline_layouts.data(i).bind_group_layouts@.len() <= crate::pass::MAX_BIND_GROUPS && forall|j: int|
                0 <= j < self.pipeline_layouts.data(i).bind_group_layouts@.len() ==> self.bind_group_layouts.holds(
                    #[trigger] self.pipeline_layouts.data(i).bind_group_layouts@[j],
                ) by {
                if implicit_pipeline_ids is Some && i == implicit_pipeline_ids->0.root_id {
                    assert(old_g.pipeline_layouts.holds(layout));
                    assert(same_pipeline_layout(self.pipeline_layouts.data(i), old_g.pipeline_layouts.data(layout)));
                    assert forall|j: int| 0 <= j < self.pipeline_layouts.data(i).bind_group_layouts@.len() implies self.bind_group_layouts.holds(
                        #[trigger] self.pipeline_layouts.data(i).bind_group_layouts@[j],
                    ) by {
                        assert(old_g.bind_group_layouts.holds(old_g.pipeline_layouts.data(layout).bind_group_layouts@[j]));
                    }
                } else {
                    assert(old_g.pipeline_layouts.holds(i));
                    assert forall|j: int| 0 <= j < self.pipeline_layouts.data(i).bind_group_layouts@.len() implies self.bind_group_layouts.holds(
                        #[trigger] self.pipeline_layouts.data(i).bind_group_layouts@[j],
                    ) by {
                        assert(old_g.bind_group_layouts.holds(old_g.pipeline_layouts.data(i).bind_group_layouts@[j]));
                    }
                }
            }
            assert forall|i: usize| #[trigger] self.bind_group_layouts.holds(i) implies self.bind_group_layouts.data(i).device < nd by {
                assert(new_b[i as int].resource is Some);
            }
            assert forall|i: usize| #[trigger] self.bind_groups.holds(i) implies self.bind_groups.data(i).device < nd
                && self.bind_group_layouts.holds(self.bind_groups.data(i).layout) by {
                assert(old_g.bind_groups.holds(i));
            }
            assert forall|i: usize| #[trigger] self.compute_pipelines.holds(i) implies self.compute_pipelines.data(i).device < nd
                && self.pipeline_layouts.holds(self.compute_pipelines.data(i).layout) by {
                assert(old_g.compute_pipelines.holds(i));
            }
            assert forall|i: usize| #[trigger] self.ray_tracing_pipelines.holds(i) implies self.ray_tracing_pipelines.data(i).device
                < nd && self.pipeline_layouts.holds(self.ray_tracing_pipelines.data(i).layout) by {
                if i == id {
                    assert(old_g.pipeline_layouts.holds(layout));
                } else {
                    assert(old_g.ray_tracing_pipelines.holds(i));
                }
            }
        }
        (id, error)
    }

    /// Registers the bind group layout at `index` of the layout of ray
    /// tracing pipeline `pipeline_id`, under `id_in` when the caller chose an
    /// id and under a new id otherwise.  On an invalid pipeline or an index
    /// past its layouts the id is registered as invalid and the error
    /// returned.
    pub fn ray_tracing_pipeline_get_bind_group_layout(&mut self, pipeline_id: usize, index: u32, id_in: Option<usize>) -> (r: (
        usize,
        Option<GetBindGroupLayoutError>,
    ))
        requires
            old(self).well_formed(),
            old(self).ray_tracing_pipelines.has_id(pipeline_id),
            old(self).bind_group_layouts.slots@.len() < usize::MAX,
            id_in is Some ==> old(self).bind_group_layouts.is_free(id_in->0) && id_in->0 < usize::MAX,
        ensures
            final(self).well_formed(),
            r.0 == match id_in {
                Some(i) => i,
                None => old(self).bind_group_layouts.slots@.len() as usize,
            },
            *final(self) == (Global { bind_group_layouts: final(self).bind_group_layouts, ..*old(self) }),
            ({
                let layouts = old(self).pipeline_layouts.data(
                    old(self).ray_tracing_pipelines.data(pipeline_id).layout,
                ).bind_group_layouts@;
                if !old(self).ray_tracing_pipelines.is_valid(pipeline_id) {
                    &&& r.1 == Some(
                        GetBindGroupLayoutError::InvalidResource(
                            InvalidResourceError { kind: ResourceKind::RayTracingPipeline, id: pipeline_id },
                        ),
                    )
                    &&& final(self).bind_group_layouts.slots@ == registered_at(old(self).bind_group_layouts.slots@, r.0 as int, None)
                } else if index >= layouts.len() {
                    &&& r.1 == Some(GetBindGroupLayoutError::InvalidGroupIndex(index))
                    &&& final(self).bind_group_layouts.slots@ == registered_at(old(self).bind_group_layouts.slots@, r.0 as int, None)
                } else {
                    &&& r.1 is None
                    &&& final(self).bind_group_layouts.slots@ == registered_at(
                        old(self).bind_group_layouts.slots@,
                        r.0 as int,
                        Some(old(self).bind_group_layouts.data(layouts[index as int])),
                    )
                }
            }),
    {
        let ghost old_g = *self;
        let id = match id_in {
            Some(i) => i,
            None => self.bind_group_layouts.slots.len(),
        };
        let (resource, error) = match self.ray_tracing_pipelines.get(pipeline_id, ResourceKind::RayTracingPipeline) {
            Err(e) => (None, Some(GetBindGroupLayoutError::InvalidResource(e))),
            Ok(pipeline) => {
                assert(self.ray_tracing_pipelines.holds(pipeline_id));
                let layout = self.pipeline_layouts.resource(pipeline.layout);
                assert(self.pipeline_layouts.holds(pipeline.layout));
                if (index as usize) < layout.bind_group_layouts.len() {
                    assert(self.bind_group_layouts.holds(layout.bind_group_layouts@[index as int]));
                    let bgl = *self.bind_group_layouts.resource(layout.bind_group_layouts[index as usize]);
                    (Some(bgl), None)
                } else {
                    (None, Some(GetBindGroupLayoutError::InvalidGroupIndex(index)))
                }
            },
        };
        self.bind_group_layouts.register_at(id, resource);
        proof {
            assert forall|i: usize| #[trigger] self.bind_group_layouts.holds(i) implies self.bind_group_layouts.data(i).device
                < self.devices@.len() by {
                if i != id {
                    assert(old_g.bind_group_layouts.holds(i));
                }
            }
            assert forall|i: usize| #[trigger] old_g.bind_group_layouts.holds(i) implies self.bind_group_layouts.holds(i)
                && self.bind_group_layouts.data(i) == old_g.bind_group_layouts.data(i) by {}
        }
        (id, error)
    }

    /// Drops the id of a ray tracing pipeline: it can no longer be looked
    /// up, while passes that recorded it keep it.
    pub fn ray_tracing_pipeline_drop(&mut self, ray_tracing_pipeline_id: usize)
        requires
            old(self).ray_tracing_pipelines.has_id(ray_tracing_pipeline_id),
        ensures
            *final(self) == (Global { ray_tracing_pipelines: final(self).ray_tracing_pipelines, ..*old(self) }),
            final(self).ray_tracing_pipelines.slots@ == old(self).ray_tracing_pipelines.slots@.update(
                ray_tracing_pipeline_id as int,
                Slot { registered: false, ..old(self).ray_tracing_pipelines.slots@[ray_tracing_pipeline_id as int] },
            ),
    {
        self.ray_tracing_pipelines.unregister(ray_tracing_pipeline_id);
        assert(self.ray_tracing_pipelines.slots@ =~= old(self).ray_tracing_pipelines.slots@.update(
            ray_tracing_pipeline_id as int,
            Slot { registered: false, ..old(self).ray_tracing_pipelines.slots@[ray_tracing_pipeline_id as int] },
        ));
    }
}

} // verus!
