//! The state of a pass while its recorded commands are replayed into the
//! encoder, and the replay steps that compute and ray tracing passes share.
//!
//! Each step is stated as a spec function from the state before it to the
//! state after it and the commands it records, or to the error it raises.

use vstd::prelude::*;
use crate::global::Global;
use crate::pass::{DeviceError, MissingFeature, PassError, PassTimestampWrites, PushConstantUploadError, QueryUseError,
    validate_query, validate_query_spec, MAX_BIND_GROUPS};
use crate::raw::RawCommand;
use crate::resource::{BindGroupLayout, ExclusivePipeline, PushConstantRange, QueryType, ResourceKind};

verus! {

/// A bind group bound in a slot, with the range of its dynamic offsets in the
/// pass's `dynamic_offsets`.
#[derive(Clone, Copy, Debug, PartialEq, Eq, Structural)]
pub struct BoundGroup {
    pub group: usize,
    pub offsets_start: usize,
    pub offsets_len: usize,
}

/// The replay state, as values.
pub struct ReplayView {
    pub pipeline: Option<usize>,
    /// The pipeline layout the bound slots are laid out for.
    pub layout: Option<usize>,
    pub bound: Seq<Option<BoundGroup>>,
    pub debug_depth: nat,
    /// Bytes of `string_data` used by the debug labels replayed so far.
    pub string_offset: nat,
    /// Dynamic offsets used by the bind group settings replayed so far.
    pub dynamic_offset_count: nat,
    pub active_query: Option<(usize, u32)>,
    /// Words of compute push constant storage of the current layout.
    pub push_constants_len: nat,
}

/// The replay state.
pub struct ReplayState {
    pub pipeline: Option<usize>,
    pub layout: Option<usize>,
    pub bound: Vec<Option<BoundGroup>>,
    pub debug_depth: usize,
    pub string_offset: usize,
    pub dynamic_offset_count: usize,
    pub active_query: Option<(usize, u32)>,
    pub push_constants_len: usize,
}

/// The state a replay starts from.
pub open spec fn initial_view() -> ReplayView {
    ReplayView {
        pipeline: None,
        layout: None,
        bound: Seq::new(MAX_BIND_GROUPS as nat, |i: int| None::<BoundGroup>),
        debug_depth: 0,
        string_offset: 0,
        dynamic_offset_count: 0,
        active_query: None,
        push_constants_len: 0,
    }
}

impl ReplayState {
    pub open spec fn view(&self) -> ReplayView {
        ReplayView {
            pipeline: self.pipeline,
            layout: self.layout,
            bound: self.bound@,
            debug_depth: self.debug_depth as nat,
            string_offset: self.string_offset as nat,
            dynamic_offset_count: self.dynamic_offset_count as nat,
            active_query: self.active_query,
            push_constants_len: self.push_constants_len as nat,
        }
    }

    /// The state a replay starts from.
    pub fn new() -> (s: ReplayState)
        ensures
            s.view() == initial_view(),
    {
        let mut bound: Vec<Option<BoundGroup>> = Vec::new();
        let mut i: usize = 0;
        while i < MAX_BIND_GROUPS
            invariant
                i <= MAX_BIND_GROUPS,
                bound@ == Seq::new(i as nat, |j: int| None::<BoundGroup>),
            decreases MAX_BIND_GROUPS - i,
        {
            bound.push(None);
            i = i + 1;
        }
        let s = ReplayState {
            pipeline: None,
            layout: None,
            bound,
            debug_depth: 0,
            string_offset: 0,
            dynamic_offset_count: 0,
            active_query: None,
            push_constants_len: 0,
        };
        assert(s.view().bound =~= initial_view().bound);
        s
    }
}

/// A step's outcome: the next state and the commands recorded, or an error.
pub type StepResult<E> = Result<(ReplayView, Seq<RawCommand>), E>;

/// Setting bind group slot `index`: the index must be below the device's
/// `max_bind_groups`; the setting consumes `num_dynamic_offsets` offsets.
/// Setting no bind group changes nothing else.  A bind group must belong to
/// the encoder's device; it is bound, and set in the encoder when a pipeline
/// layout is current.
pub open spec fn set_bind_group_step(
    g: Global,
    dev: usize,
    s: ReplayView,
    index: u32,
    num_dynamic_offsets: usize,
    bind_group: Option<usize>,
) -> StepResult<PassError> {
    let max = g.devices@[dev as int].limits.max_bind_groups;
    if index >= max {
        Err(PassError::BindGroupIndexOutOfRange { index, max })
    } else {
        let start = s.dynamic_offset_count;
        let s1 = ReplayView { dynamic_offset_count: s.dynamic_offset_count + num_dynamic_offsets as nat, ..s };
        match bind_group {
            None => Ok((s1, Seq::empty())),
            Some(bg) => if g.bind_groups.data(bg).device != dev {
                Err(PassError::Device(DeviceError::DeviceMismatch { kind: ResourceKind::BindGroup, id: bg }))
            } else {
                let b = BoundGroup { group: bg, offsets_start: start as usize, offsets_len: num_dynamic_offsets };
                let s2 = ReplayView { bound: s1.bound.update(index as int, Some(b)), ..s1 };
                if s.layout is Some {
                    Ok((s2, seq![RawCommand::SetBindGroup { index, bind_group: bg, offsets_start: start as usize, offsets_len: num_dynamic_offsets }]))
                } else {
                    Ok((s2, Seq::empty()))
                }
            },
        }
    }
}

/// Opening a debug group labelled by the next `len` label bytes.
pub open spec fn push_debug_group_step(s: ReplayView, len: usize) -> (ReplayView, Seq<RawCommand>) {
    (
        ReplayView { debug_depth: s.debug_depth + 1, string_offset: s.string_offset + len as nat, ..s },
        seq![RawCommand::BeginDebugMarker { label_start: s.string_offset as usize, label_len: len }],
    )
}

/// Closing the innermost debug group: there must be one.
pub open spec fn pop_debug_group_step(s: ReplayView) -> StepResult<PassError> {
    if s.debug_depth == 0 {
        Err(PassError::InvalidPopDebugGroup)
    } else {
        Ok((ReplayView { debug_depth: (s.debug_depth - 1) as nat, ..s }, seq![RawCommand::EndDebugMarker]))
    }
}

/// Inserting a debug marker labelled by the next `len` label bytes.
pub open spec fn insert_debug_marker_step(s: ReplayView, len: usize) -> (ReplayView, Seq<RawCommand>) {
    (
        ReplayView { string_offset: s.string_offset + len as nat, ..s },
        seq![RawCommand::InsertDebugMarker { label_start: s.string_offset as usize, label_len: len }],
    )
}

/// Writing a timestamp inside a pass: the device needs the feature, the query
/// set must belong to the encoder's device, hold timestamps and contain the index.
pub open spec fn write_timestamp_step(g: Global, dev: usize, s: ReplayView, query_set: usize, query_index: u32) -> StepResult<
    PassError,
> {
    if !g.devices@[dev as int].features.timestamp_query_inside_passes {
        Err(PassError::MissingFeature(MissingFeature::TimestampQueryInsidePasses))
    } else if g.query_sets.data(query_set).device != dev {
        Err(PassError::Device(DeviceError::DeviceMismatch { kind: ResourceKind::QuerySet, id: query_set }))
    } else if validate_query_spec(g.query_sets.data(query_set), QueryType::Timestamp, query_index) is Err {
        Err(PassError::QueryUse(validate_query_spec(g.query_sets.data(query_set), QueryType::Timestamp, query_index)->Err_0))
    } else {
        Ok((s, seq![RawCommand::WriteTimestamp { query_set, query_index }]))
    }
}

/// Beginning a pipeline statistics query: the query set must belong to the
/// encoder's device, hold pipeline statistics and contain the index, and no
/// query may be active.  The query is reset, then begun.
pub open spec fn begin_statistics_step(g: Global, dev: usize, s: ReplayView, query_set: usize, query_index: u32) -> StepResult<
    PassError,
> {
    let qs = g.query_sets.data(query_set);
    if qs.device != dev {
        Err(PassError::QueryUse(QueryUseError::Device(DeviceError::DeviceMismatch { kind: ResourceKind::QuerySet, id: query_set })))
    } else if validate_query_spec(qs, QueryType::PipelineStatistics, query_index) is Err {
        Err(PassError::QueryUse(validate_query_spec(qs, QueryType::PipelineStatistics, query_index)->Err_0))
    } else if let Some((_, active_index)) = s.active_query {
        Err(PassError::QueryUse(QueryUseError::AlreadyStarted { active_query_index: active_index, new_query_index: query_index }))
    } else {
        Ok((
            ReplayView { active_query: Some((query_set, query_index)), ..s },
            seq![
                RawCommand::ResetQueries { query_set, start: query_index, end: (query_index + 1) as u32 },
                RawCommand::BeginQuery { query_set, query_index },
            ],
        ))
    }
}

/// Ending the active pipeline statistics query: one must be active.
pub open spec fn end_statistics_step(s: ReplayView) -> StepResult<PassError> {
    match s.active_query {
        Some((query_set, query_index)) => Ok((
            ReplayView { active_query: None, ..s },
            seq![RawCommand::EndQuery { query_set, query_index }],
        )),
        None => Err(PassError::QueryUse(QueryUseError::AlreadyStopped)),
    }
}

/// The bind group settings that make the first `n` bound slots current again.
pub open spec fn rebind_actions(bound: Seq<Option<BoundGroup>>, n: nat) -> Seq<RawCommand>
    decreases n,
{
    if n == 0 || n > bound.len() {
        Seq::empty()
    } else {
        rebind_actions(bound, (n - 1) as nat) + match bound[n - 1] {
            Some(b) => seq![RawCommand::SetBindGroup {
                index: (n - 1) as u32,
                bind_group: b.group,
                offsets_start: b.offsets_start,
                offsets_len: b.offsets_len,
            }],
            None => Seq::empty(),
        }
    }
}

/// The bind group layout `b` can be used with `pipeline`: it is not
/// exclusive to another pipeline.
pub open spec fn usable_with(b: BindGroupLayout, pipeline: ExclusivePipeline) -> bool {
    b.exclusive_pipeline is None || b.exclusive_pipeline == Some(pipeline)
}

/// The first of the first `n` slots of the layout `layouts` whose bound group
/// is missing, has a bind group layout other than the slot's, or has one
/// exclusive to a pipeline other than `pipeline`.
pub open spec fn first_incompatible(
    g: Global,
    bound: Seq<Option<BoundGroup>>,
    layouts: Seq<usize>,
    pipeline: ExclusivePipeline,
    n: nat,
) -> Option<nat>
    decreases n,
{
    if n == 0 {
        None
    } else {
        match first_incompatible(g, bound, layouts, pipeline, (n - 1) as nat) {
            Some(i) => Some(i),
            None => {
                let i = (n - 1) as int;
                let ok = i < bound.len() && bound[i] is Some && {
                    let b = g.bind_group_layouts.data(g.bind_groups.data(bound[i]->0.group).layout);
                    b.handle == g.bind_group_layouts.data(layouts[i]).handle && usable_with(b, pipeline)
                };
                if ok { None } else { Some((n - 1) as nat) }
            },
        }
    }
}

/// The size bound to late-sized buffer binding `j` of slot `i`: what the
/// bind group in the slot gives, and zero where it gives nothing.
pub open spec fn bound_late_size(g: Global, bound: Seq<Option<BoundGroup>>, i: int, j: int) -> u64 {
    if 0 <= i < bound.len() && bound[i] is Some {
        let sizes = g.bind_groups.data(bound[i]->0.group).late_buffer_binding_sizes@;
        if 0 <= j < sizes.len() {
            sizes[j]
        } else {
            0
        }
    } else {
        0
    }
}

/// The first of the first `m` late-sized bindings of slot `i` whose bound
/// size is below the size `shader` needs.
pub open spec fn first_small_binding(g: Global, bound: Seq<Option<BoundGroup>>, i: int, shader: Seq<u64>, m: nat) -> Option<nat>
    decreases m,
{
    if m == 0 {
        None
    } else {
        match first_small_binding(g, bound, i, shader, (m - 1) as nat) {
            Some(j) => Some(j),
            None => if bound_late_size(g, bound, i, m - 1) < shader[m - 1] {
                Some((m - 1) as nat)
            } else {
                None
            },
        }
    }
}

/// The first late-sized binding, by slot among the first `n` and then by
/// binding, whose bound size is below what the shaders need: its slot and
/// its index among the slot's late-sized bindings.
pub open spec fn first_late_mismatch(g: Global, bound: Seq<Option<BoundGroup>>, groups: Seq<Seq<u64>>, n: nat) -> Option<(nat, nat)>
    decreases n,
{
    if n == 0 {
        None
    } else {
        match first_late_mismatch(g, bound, groups, (n - 1) as nat) {
            Some(e) => Some(e),
            None => match first_small_binding(g, bound, n - 1, groups[n - 1], groups[n - 1].len()) {
                Some(j) => Some(((n - 1) as nat, j)),
                None => None,
            },
        }
    }
}

/// A late-sized binding whose bound size is below what the shader needs.
#[derive(Clone, Copy, Debug, PartialEq, Eq)]
pub struct LateBindingMismatch {
    pub group_index: u32,
    pub compact_index: usize,
    pub shader_size: u64,
    pub bound_size: u64,
}

/// The mismatch that `first_late_mismatch` finds, with its sizes.
pub open spec fn late_mismatch_report(g: Global, bound: Seq<Option<BoundGroup>>, groups: Seq<Seq<u64>>) -> Option<LateBindingMismatch> {
    match first_late_mismatch(g, bound, groups, groups.len()) {
        Some((i, j)) => Some(
            LateBindingMismatch {
                group_index: #[verifier::truncate] (i as u32),
                compact_index: j as usize,
                shader_size: groups[i as int][j as int],
                bound_size: bound_late_size(g, bound, i as int, j as int),
            },
        ),
        None => None,
    }
}

/// Returns `late_mismatch_report(*g, s.bound@, groups@ as sequences)`.
pub fn check_late_buffer_bindings(g: &Global, s: &ReplayState, groups: &Vec<Vec<u64>>) -> (r: Option<LateBindingMismatch>)
    requires
        forall|i: int| 0 <= i < s.bound@.len() && (#[trigger] s.bound@[i]) is Some ==> g.bind_groups.holds(s.bound@[i]->0.group),
    ensures
        r == late_mismatch_report(*g, s.bound@, groups@.map_values(|v: Vec<u64>| v@)),
{
    let ghost gs = groups@.map_values(|v: Vec<u64>| v@);
    let mut i: usize = 0;
    while i < groups.len()
        invariant
            i <= groups@.len(),
            gs == groups@.map_values(|v: Vec<u64>| v@),
            forall|i: int| 0 <= i < s.bound@.len() && (#[trigger] s.bound@[i]) is Some ==> g.bind_groups.holds(s.bound@[i]->0.group),
            first_late_mismatch(*g, s.bound@, gs, i as nat) is None,
        decreases groups@.len() - i,
    {
        let shader = &groups[i];
        assert(gs[i as int] == shader@);
        let mut j: usize = 0;
        while j < shader.len()
            invariant
                i < groups@.len(),
                j <= shader@.len(),
                gs == groups@.map_values(|v: Vec<u64>| v@),
                gs[i as int] == shader@,
                    forall|i: int| 0 <= i < s.bound@.len() && (#[trigger] s.bound@[i]) is Some ==> g.bind_groups.holds(s.bound@[i]->0.group),
                first_late_mismatch(*g, s.bound@, gs, i as nat) is None,
                first_small_binding(*g, s.bound@, i as int, shader@, j as nat) is None,
            decreases shader@.len() - j,
        {
            let bound_size = if i < s.bound.len() {
                match &s.bound[i] {
                    Some(b) => {
                        let sizes = &g.bind_groups.resource(b.group).late_buffer_binding_sizes;
                        if j < sizes.len() {
                            sizes[j]
                        } else {
                            0
                        }
                    },
                    None => 0,
                }
            } else {
                0
            };
            assert(bound_size == bound_late_size(*g, s.bound@, i as int, j as int));
            if bound_size < shader[j] {
                proof {
                    lemma_first_small_binding_persists(*g, s.bound@, i as int, shader@, j as nat + 1, shader@.len());
                    assert(first_late_mismatch(*g, s.bound@, gs, i as nat + 1) == Some((i as nat, j as nat)));
                    lemma_first_late_mismatch_persists(*g, s.bound@, gs, i as nat + 1, gs.len());
                }
                #[verifier::truncate]
                let group_index = i as u32;
                return Some(LateBindingMismatch { group_index, compact_index: j, shader_size: shader[j], bound_size });
            }
            j = j + 1;
        }
        i = i + 1;
    }
    None
}

/// The late binding check reads only the bind groups of the hub.
pub proof fn lemma_late_mismatch_same(a: Global, b: Global, bound: Seq<Option<BoundGroup>>, groups: Seq<Seq<u64>>)
    requires
        a.bind_groups == b.bind_groups,
    ensures
        late_mismatch_report(a, bound, groups) == late_mismatch_report(b, bound, groups),
{
    lemma_first_late_mismatch_same(a, b, bound, groups, groups.len());
    match first_late_mismatch(a, bound, groups, groups.len()) {
        Some((i, j)) => {
            assert(bound_late_size(a, bound, i as int, j as int) == bound_late_size(b, bound, i as int, j as int));
        },
        None => {},
    }
}

proof fn lemma_first_late_mismatch_same(a: Global, b: Global, bound: Seq<Option<BoundGroup>>, groups: Seq<Seq<u64>>, n: nat)
    requires
        a.bind_groups == b.bind_groups,
    ensures
        first_late_mismatch(a, bound, groups, n) == first_late_mismatch(b, bound, groups, n),
    decreases n,
{
    if n > 0 {
        lemma_first_late_mismatch_same(a, b, bound, groups, (n - 1) as nat);
        lemma_first_small_binding_same(a, b, bound, n - 1, groups[n - 1], groups[n - 1].len());
    }
}

proof fn lemma_first_small_binding_same(a: Global, b: Global, bound: Seq<Option<BoundGroup>>, i: int, shader: Seq<u64>, m: nat)
    requires
        a.bind_groups == b.bind_groups,
    ensures
        first_small_binding(a, bound, i, shader, m) == first_small_binding(b, bound, i, shader, m),
    decreases m,
{
    if m > 0 {
        lemma_first_small_binding_same(a, b, bound, i, shader, (m - 1) as nat);
        assert(bound_late_size(a, bound, i, m - 1) == bound_late_size(b, bound, i, m - 1));
    }
}

/// Once a prefix of a slot's bindings has a mismatch, every longer prefix
/// reports the same one.
proof fn lemma_first_small_binding_persists(g: Global, bound: Seq<Option<BoundGroup>>, i: int, shader: Seq<u64>, m: nat, k: nat)
    requires
        m <= k,
        first_small_binding(g, bound, i, shader, m) is Some,
    ensures
        first_small_binding(g, bound, i, shader, k) == first_small_binding(g, bound, i, shader, m),
    decreases k - m,
{
    if m < k {
        lemma_first_small_binding_persists(g, bound, i, shader, m, (k - 1) as nat);
    }
}

/// Once the first slots have a mismatch, more slots report the same one.
proof fn lemma_first_late_mismatch_persists(g: Global, bound: Seq<Option<BoundGroup>>, groups: Seq<Seq<u64>>, n: nat, k: nat)
    requires
        n <= k,
        first_late_mismatch(g, bound, groups, n) is Some,
    ensures
        first_late_mismatch(g, bound, groups, k) == first_late_mismatch(g, bound, groups, n),
    decreases k - n,
{
    if n < k {
        lemma_first_late_mismatch_persists(g, bound, groups, n, (k - 1) as nat);
    }
}

/// `a` contains all bits of `b`.
pub open spec fn contains_bits(a: u32, b: u32) -> bool {
    a & b == b
}

/// The validation of a push constant upload for `stages` over bytes
/// `offset..end` against the first `n` ranges of a layout; on success, the
/// stages of the ranges it names.
pub open spec fn push_constant_ranges_check(ranges: Seq<PushConstantRange>, stages: u32, offset: u32, end: u32, n: nat) -> Result<
    u32,
    PushConstantUploadError,
>
    decreases n,
{
    if n == 0 || n > ranges.len() {
        Ok(0)
    } else {
        match push_constant_ranges_check(ranges, stages, offset, end, (n - 1) as nat) {
            Err(e) => Err(e),
            Ok(used) => {
                let idx = (n - 1) as usize;
                let r = ranges[n - 1];
                if contains_bits(stages, r.stages) && !(r.start <= offset && end <= r.end) {
                    Err(PushConstantUploadError::TooLarge { offset, end_offset: end, idx, range: r })
                } else if !contains_bits(stages, r.stages) && stages & r.stages != 0 {
                    Err(PushConstantUploadError::PartialRangeMatch { actual: stages, idx, matched: r.stages })
                } else if offset < r.end && r.start < end && !contains_bits(stages, r.stages) {
                    Err(PushConstantUploadError::MissingStages { actual: stages, idx, missing: stages })
                } else if contains_bits(stages, r.stages) {
                    Ok(used | r.stages)
                } else {
                    Ok(used)
                }
            },
        }
    }
}

/// The validation of a push constant upload: every range the upload touches
/// must be named with all its stages and contain the upload, and every stage
/// named must be covered.
pub open spec fn push_constant_upload_check(ranges: Seq<PushConstantRange>, stages: u32, offset: u32, end: u32) -> Result<
    (),
    PushConstantUploadError,
> {
    match push_constant_ranges_check(ranges, stages, offset, end, ranges.len()) {
        Err(e) => Err(e),
        Ok(used) => if used != stages {
            Err(PushConstantUploadError::UnmatchedStages { actual: stages, unmatched: stages & !used })
        } else {
            Ok(())
        },
    }
}

proof fn lemma_ranges_check_err_persists(
    ranges: Seq<PushConstantRange>,
    stages: u32,
    offset: u32,
    end: u32,
    n: nat,
    m: nat,
)
    requires
        n <= m <= ranges.len(),
        push_constant_ranges_check(ranges, stages, offset, end, n) is Err,
    ensures
        push_constant_ranges_check(ranges, stages, offset, end, m) == push_constant_ranges_check(ranges, stages, offset, end, n),
    decreases m - n,
{
    if n < m {
        lemma_ranges_check_err_persists(ranges, stages, offset, end, n, (m - 1) as nat);
    }
}

/// Validates a push constant upload (see `push_constant_upload_check`).
pub fn validate_push_constant_ranges(ranges: &Vec<PushConstantRange>, stages: u32, offset: u32, end: u32) -> (r: Result<
    (),
    PushConstantUploadError,
>)
    ensures
        r == push_constant_upload_check(ranges@, stages, offset, end),
{
    let mut used: u32 = 0;
    let mut i: usize = 0;
    while i < ranges.len()
        invariant
            i <= ranges@.len(),
            push_constant_ranges_check(ranges@, stages, offset, end, i as nat) == Ok::<u32, PushConstantUploadError>(used),
        decreases ranges@.len() - i,
    {
        let r = ranges[i];
        let contains = stages & r.stages == r.stages;
        if contains && !(r.start <= offset && end <= r.end) {
            proof { lemma_ranges_check_err_persists(ranges@, stages, offset, end, (i + 1) as nat, ranges@.len()); }
            return Err(PushConstantUploadError::TooLarge { offset, end_offset: end, idx: i, range: r });
        } else if !contains && stages & r.stages != 0 {
            proof { lemma_ranges_check_err_persists(ranges@, stages, offset, end, (i + 1) as nat, ranges@.len()); }
            return Err(PushConstantUploadError::PartialRangeMatch { actual: stages, idx: i, matched: r.stages });
        } else if offset < r.end && r.start < end && !contains {
            proof { lemma_ranges_check_err_persists(ranges@, stages, offset, end, (i + 1) as nat, ranges@.len()); }
            return Err(PushConstantUploadError::MissingStages { actual: stages, idx: i, missing: stages });
        }
        if contains {
            used = used | r.stages;
        }
        i = i + 1;
    }
    if used != stages {
        return Err(PushConstantUploadError::UnmatchedStages { actual: stages, unmatched: stages & !used });
    }
    Ok(())
}


/// `s` and `acts` went through a step with outcome `step`, returning `r`.
pub open spec fn stepped<E>(
    step: StepResult<E>,
    old_s: ReplayView,
    new_s: ReplayView,
    old_acts: Seq<RawCommand>,
    new_acts: Seq<RawCommand>,
    r: Result<(), E>,
) -> bool {
    match step {
        Ok((v, a)) => r is Ok && new_s == v && new_acts == old_acts + a,
        Err(e) => r == Err::<(), E>(e),
    }
}

/// Performs `set_bind_group_step`.
pub fn set_bind_group(
    g: &Global,
    dev: usize,
    s: &mut ReplayState,
    acts: &mut Vec<RawCommand>,
    index: u32,
    num_dynamic_offsets: usize,
    bind_group: Option<usize>,
) -> (r: Result<(), PassError>)
    requires
        g.well_formed(),
        dev < g.devices@.len(),
        bind_group is Some ==> g.bind_groups.holds(bind_group->0),
        old(s).bound@.len() == MAX_BIND_GROUPS,
        old(s).dynamic_offset_count + num_dynamic_offsets <= usize::MAX,
    ensures
        stepped(
            set_bind_group_step(*g, dev, old(s).view(), index, num_dynamic_offsets, bind_group),
            old(s).view(),
            final(s).view(),
            old(acts)@,
            final(acts)@,
            r,
        ),
        final(s).bound@.len() == MAX_BIND_GROUPS,
{
    let max = g.devices[dev].limits.max_bind_groups;
    if index >= max {
        return Err(PassError::BindGroupIndexOutOfRange { index, max });
    }
    let start = s.dynamic_offset_count;
    s.dynamic_offset_count = s.dynamic_offset_count + num_dynamic_offsets;
    match bind_group {
        None => {
            assert(s.view().bound =~= old(s).view().bound);
            assert(acts@ =~= old(acts)@ + Seq::<RawCommand>::empty());
            assert(s.view() == ReplayView {
                dynamic_offset_count: old(s).view().dynamic_offset_count + num_dynamic_offsets as nat,
                ..old(s).view()
            });
            Ok(())
        },
        Some(bg) => {
            let group = g.bind_groups.resource(bg);
            if group.device != dev {
                return Err(PassError::Device(DeviceError::DeviceMismatch { kind: ResourceKind::BindGroup, id: bg }));
            }
            let b = BoundGroup { group: bg, offsets_start: start, offsets_len: num_dynamic_offsets };
            s.bound.set(index as usize, Some(b));
            if s.layout.is_some() {
                acts.push(RawCommand::SetBindGroup { index, bind_group: bg, offsets_start: start, offsets_len: num_dynamic_offsets });
            }
            proof {
                let ghost sb = old(s).bound@.update(index as int, Some(b));
                assert(s.bound@ =~= sb);
                if old(s).layout is None {
                    assert(acts@ =~= old(acts)@ + Seq::<RawCommand>::empty());
                } else {
                    assert(acts@ =~= old(acts)@ + seq![RawCommand::SetBindGroup { index, bind_group: bg, offsets_start: start, offsets_len: num_dynamic_offsets }]);
                }
            }
            Ok(())
        },
    }
}

/// Performs `push_debug_group_step`.
pub fn push_debug_group(s: &mut ReplayState, acts: &mut Vec<RawCommand>, len: usize)
    requires
        old(s).debug_depth < usize::MAX,
        old(s).string_offset + len <= usize::MAX,
    ensures
        (final(s).view(), final(acts)@) == ({
            let (v, a) = push_debug_group_step(old(s).view(), len);
            (v, old(acts)@ + a)
        }),
        final(s).bound@ == old(s).bound@,
{
    acts.push(RawCommand::BeginDebugMarker { label_start: s.string_offset, label_len: len });
    s.debug_depth = s.debug_depth + 1;
    s.string_offset = s.string_offset + len;
    assert(acts@ =~= old(acts)@ + push_debug_group_step(old(s).view(), len).1);
}

/// Performs `pop_debug_group_step`.
pub fn pop_debug_group(s: &mut ReplayState, acts: &mut Vec<RawCommand>) -> (r: Result<(), PassError>)
    ensures
        stepped(pop_debug_group_step(old(s).view()), old(s).view(), final(s).view(), old(acts)@, final(acts)@, r),
        final(s).bound@ == old(s).bound@,
{
    if s.debug_depth == 0 {
        return Err(PassError::InvalidPopDebugGroup);
    }
    s.debug_depth = s.debug_depth - 1;
    acts.push(RawCommand::EndDebugMarker);
    assert(acts@ =~= old(acts)@ + seq![RawCommand::EndDebugMarker]);
    Ok(())
}

/// Performs `insert_debug_marker_step`.
pub fn insert_debug_marker(s: &mut ReplayState, acts: &mut Vec<RawCommand>, len: usize)
    requires
        old(s).string_offset + len <= usize::MAX,
    ensures
        (final(s).view(), final(acts)@) == ({
            let (v, a) = insert_debug_marker_step(old(s).view(), len);
            (v, old(acts)@ + a)
        }),
        final(s).bound@ == old(s).bound@,
{
    acts.push(RawCommand::InsertDebugMarker { label_start: s.string_offset, label_len: len });
    s.string_offset = s.string_offset + len;
    assert(acts@ =~= old(acts)@ + insert_debug_marker_step(old(s).view(), len).1);
}

/// Performs `write_timestamp_step`.
pub fn write_timestamp(
    g: &Global,
    dev: usize,
    s: &mut ReplayState,
    acts: &mut Vec<RawCommand>,
    query_set: usize,
    query_index: u32,
) -> (r: Result<(), PassError>)
    requires
        dev < g.devices@.len(),
        g.query_sets.holds(query_set),
    ensures
        stepped(
            write_timestamp_step(*g, dev, old(s).view(), query_set, query_index),
            old(s).view(),
            final(s).view(),
            old(acts)@,
            final(acts)@,
            r,
        ),
        final(s).bound@ == old(s).bound@,
{
    if !g.devices[dev].features.timestamp_query_inside_passes {
        return Err(PassError::MissingFeature(MissingFeature::TimestampQueryInsidePasses));
    }
    let qs = g.query_sets.resource(query_set);
    if qs.device != dev {
        return Err(PassError::Device(DeviceError::DeviceMismatch { kind: ResourceKind::QuerySet, id: query_set }));
    }
    if let Err(e) = validate_query(qs, QueryType::Timestamp, query_index) {
        return Err(PassError::QueryUse(e));
    }
    acts.push(RawCommand::WriteTimestamp { query_set, query_index });
    assert(acts@ =~= old(acts)@ + seq![RawCommand::WriteTimestamp { query_set, query_index }]);
    Ok(())
}

/// Performs `begin_statistics_step`.
pub fn begin_pipeline_statistics_query(
    g: &Global,
    dev: usize,
    s: &mut ReplayState,
    acts: &mut Vec<RawCommand>,
    query_set: usize,
    query_index: u32,
) -> (r: Result<(), PassError>)
    requires
        g.query_sets.holds(query_set),
    ensures
        stepped(
            begin_statistics_step(*g, dev, old(s).view(), query_set, query_index),
            old(s).view(),
            final(s).view(),
            old(acts)@,
            final(acts)@,
            r,
        ),
        final(s).bound@ == old(s).bound@,
{
    let qs = g.query_sets.resource(query_set);
    if qs.device != dev {
        return Err(PassError::QueryUse(QueryUseError::Device(DeviceError::DeviceMismatch { kind: ResourceKind::QuerySet, id: query_set })));
    }
    if let Err(e) = validate_query(qs, QueryType::PipelineStatistics, query_index) {
        return Err(PassError::QueryUse(e));
    }
    if let Some((_, active_index)) = s.active_query {
        return Err(PassError::QueryUse(QueryUseError::AlreadyStarted { active_query_index: active_index, new_query_index: query_index }));
    }
    s.active_query = Some((query_set, query_index));
    acts.push(RawCommand::ResetQueries { query_set, start: query_index, end: query_index + 1 });
    acts.push(RawCommand::BeginQuery { query_set, query_index });
    assert(acts@ =~= old(acts)@ + seq![
        RawCommand::ResetQueries { query_set, start: query_index, end: (query_index + 1) as u32 },
        RawCommand::BeginQuery { query_set, query_index },
    ]);
    Ok(())
}

/// Performs `end_statistics_step`.
pub fn end_pipeline_statistics_query(s: &mut ReplayState, acts: &mut Vec<RawCommand>) -> (r: Result<(), PassError>)
    ensures
        stepped(end_statistics_step(old(s).view()), old(s).view(), final(s).view(), old(acts)@, final(acts)@, r),
        final(s).bound@ == old(s).bound@,
{
    match s.active_query {
        Some((query_set, query_index)) => {
            s.active_query = None;
            acts.push(RawCommand::EndQuery { query_set, query_index });
            assert(acts@ =~= old(acts)@ + seq![RawCommand::EndQuery { query_set, query_index }]);
            Ok(())
        },
        None => Err(PassError::QueryUse(QueryUseError::AlreadyStopped)),
    }
}

/// Records `rebind_actions(s.bound, n)`.
pub fn rebind(s: &ReplayState, acts: &mut Vec<RawCommand>, n: usize)
    requires
        n <= s.bound@.len(),
    ensures
        final(acts)@ == old(acts)@ + rebind_actions(s.bound@, n as nat),
{
    let mut i: usize = 0;
    while i < n
        invariant
            i <= n,
            n <= s.bound@.len(),
            acts@ == old(acts)@ + rebind_actions(s.bound@, i as nat),
        decreases n - i,
    {
        let ghost before = acts@;
        if let Some(b) = s.bound[i] {
            acts.push(RawCommand::SetBindGroup {
                index: i as u32,
                bind_group: b.group,
                offsets_start: b.offsets_start,
                offsets_len: b.offsets_len,
            });
        }
        assert(acts@ =~= old(acts)@ + rebind_actions(s.bound@, (i + 1) as nat));
        i = i + 1;
    }
}

/// Returns `first_incompatible(g, s.bound, layouts, pipeline, layouts.len())`.
pub fn check_compatibility(g: &Global, s: &ReplayState, layouts: &Vec<usize>, pipeline: ExclusivePipeline) -> (r: Option<usize>)
    requires
        g.well_formed(),
        forall|i: int| 0 <= i < s.bound@.len() && #[trigger] s.bound@[i] is Some ==> g.bind_groups.holds(s.bound@[i]->0.group),
        forall|i: int| 0 <= i < layouts@.len() ==> g.bind_group_layouts.holds(#[trigger] layouts@[i]),
    ensures
        r == match first_incompatible(*g, s.bound@, layouts@, pipeline, layouts@.len()) {
            Some(i) => Some(i as usize),
            None => None::<usize>,
        },
        r matches Some(i) ==> i < layouts@.len(),
{
    let mut i: usize = 0;
    while i < layouts.len()
        invariant
            i <= layouts@.len(),
            g.well_formed(),
            forall|j: int| 0 <= j < s.bound@.len() && #[trigger] s.bound@[j] is Some ==> g.bind_groups.holds(s.bound@[j]->0.group),
            forall|j: int| 0 <= j < layouts@.len() ==> g.bind_group_layouts.holds(#[trigger] layouts@[j]),
            first_incompatible(*g, s.bound@, layouts@, pipeline, i as nat) is None,
        decreases layouts@.len() - i,
    {
        let ok = if i < s.bound.len() {
            match s.bound[i] {
                Some(b) => {
                    let bgl = g.bind_group_layouts.resource(g.bind_groups.resource(b.group).layout);
                    bgl.handle == g.bind_group_layouts.resource(layouts[i]).handle && match bgl.exclusive_pipeline {
                        None => true,
                        Some(e) => match (e, pipeline) {
                            (ExclusivePipeline::Compute(a), ExclusivePipeline::Compute(b)) => a == b,
                            (ExclusivePipeline::RayTracing(a), ExclusivePipeline::RayTracing(b)) => a == b,
                            _ => false,
                        },
                    }
                },
                None => false,
            }
        } else {
            false
        };
        if !ok {
            proof { lemma_first_incompatible_persists(*g, s.bound@, layouts@, pipeline, (i + 1) as nat, layouts@.len()); }
            return Some(i);
        }
        i = i + 1;
    }
    None
}

/// The slot `first_incompatible` finds is among the slots it looks at.
pub proof fn lemma_first_incompatible_bound(
    g: Global,
    bound: Seq<Option<BoundGroup>>,
    layouts: Seq<usize>,
    pipeline: ExclusivePipeline,
    n: nat,
)
    ensures
        first_incompatible(g, bound, layouts, pipeline, n) matches Some(k) ==> k < n,
    decreases n,
{
    if n > 0 {
        lemma_first_incompatible_bound(g, bound, layouts, pipeline, (n - 1) as nat);
    }
}

/// `first_incompatible` reads only the bind groups of the hub.
pub proof fn lemma_first_incompatible_same(
    a: Global,
    b: Global,
    bound: Seq<Option<BoundGroup>>,
    layouts: Seq<usize>,
    pipeline: ExclusivePipeline,
    n: nat,
)
    requires
        a.bind_groups == b.bind_groups,
        a.bind_group_layouts == b.bind_group_layouts,
    ensures
        first_incompatible(a, bound, layouts, pipeline, n) == first_incompatible(b, bound, layouts, pipeline, n),
    decreases n,
{
    if n > 0 {
        lemma_first_incompatible_same(a, b, bound, layouts, pipeline, (n - 1) as nat);
    }
}

proof fn lemma_first_incompatible_persists(
    g: Global,
    bound: Seq<Option<BoundGroup>>,
    layouts: Seq<usize>,
    pipeline: ExclusivePipeline,
    n: nat,
    m: nat,
)
    requires
        n <= m,
        first_incompatible(g, bound, layouts, pipeline, n) is Some,
    ensures
        first_incompatible(g, bound, layouts, pipeline, m) == first_incompatible(g, bound, layouts, pipeline, n),
    decreases m - n,
{
    if n < m {
        lemma_first_incompatible_persists(g, bound, layouts, pipeline, n, (m - 1) as nat);
    }
}


/// Both timestamp write indices, when given, leave room for the query after them.
pub open spec fn timestamp_indices_fit(tw: Option<PassTimestampWrites>) -> bool {
    tw is Some ==> {
        &&& (tw->0.beginning_of_pass_write_index is Some ==> tw->0.beginning_of_pass_write_index->0 < u32::MAX)
        &&& (tw->0.end_of_pass_write_index is Some ==> tw->0.end_of_pass_write_index->0 < u32::MAX)
    }
}

/// What a pass records before its commands for its timestamp writes: the
/// query set must belong to the encoder's device, and the queries from the
/// lower to the higher index given are reset.
pub open spec fn timestamp_reset_actions(g: Global, dev: usize, tw: Option<PassTimestampWrites>) -> Result<Seq<RawCommand>, PassError> {
    match tw {
        None => Ok(Seq::empty()),
        Some(t) => if g.query_sets.data(t.query_set).device != dev {
            Err(PassError::Device(DeviceError::DeviceMismatch { kind: ResourceKind::QuerySet, id: t.query_set }))
        } else {
            Ok(match (t.beginning_of_pass_write_index, t.end_of_pass_write_index) {
                (Some(a), Some(b)) => seq![RawCommand::ResetQueries {
                    query_set: t.query_set,
                    start: if a <= b { a } else { b },
                    end: ((if a <= b { b } else { a }) + 1) as u32,
                }],
                (Some(a), None) => seq![RawCommand::ResetQueries { query_set: t.query_set, start: a, end: (a + 1) as u32 }],
                (None, Some(b)) => seq![RawCommand::ResetQueries { query_set: t.query_set, start: b, end: (b + 1) as u32 }],
                (None, None) => Seq::empty(),
            })
        },
    }
}

/// Records `timestamp_reset_actions`.
pub fn reset_timestamp_queries(g: &Global, dev: usize, tw: Option<PassTimestampWrites>, acts: &mut Vec<RawCommand>) -> (r: Result<
    (),
    PassError,
>)
    requires
        tw is Some ==> g.query_sets.holds(tw->0.query_set),
        timestamp_indices_fit(tw),
    ensures
        match timestamp_reset_actions(*g, dev, tw) {
            Ok(a) => r is Ok && final(acts)@ == old(acts)@ + a,
            Err(e) => r == Err::<(), PassError>(e),
        },
{
    match tw {
        None => {
            assert(acts@ =~= old(acts)@ + Seq::<RawCommand>::empty());
            Ok(())
        },
        Some(t) => {
            if g.query_sets.resource(t.query_set).device != dev {
                return Err(PassError::Device(DeviceError::DeviceMismatch { kind: ResourceKind::QuerySet, id: t.query_set }));
            }
            let ghost before = acts@;
            match (t.beginning_of_pass_write_index, t.end_of_pass_write_index) {
                (Some(a), Some(b)) => {
                    let lo = if a <= b { a } else { b };
                    let hi = if a <= b { b } else { a };
                    acts.push(RawCommand::ResetQueries { query_set: t.query_set, start: lo, end: hi + 1 });
                },
                (Some(a), None) => {
                    acts.push(RawCommand::ResetQueries { query_set: t.query_set, start: a, end: a + 1 });
                },
                (None, Some(b)) => {
                    acts.push(RawCommand::ResetQueries { query_set: t.query_set, start: b, end: b + 1 });
                },
                (None, None) => {},
            }
            assert(acts@ =~= before + timestamp_reset_actions(*g, dev, tw)->Ok_0);
            Ok(())
        },
    }
}

/// The replay state refers only to held resources and has a slot per bind group.
pub open spec fn bound_groups_held(g: Global, s: ReplayView) -> bool {
    &&& s.bound.len() == MAX_BIND_GROUPS
    &&& forall|i: int| 0 <= i < s.bound.len() && #[trigger] s.bound[i] is Some ==> g.bind_groups.holds(s.bound[i]->0.group)
    &&& s.layout is Some ==> g.pipeline_layouts.holds(s.layout->0)
}

} // verus!
