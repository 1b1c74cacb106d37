//! HLSL helper functions emitted for WGSL ray queries.
//!
//! The writer appends HLSL source text to `out`.  Every emitting function
//! states, as a sequence of characters, exactly what it appends.  Type names
//! that another part of the backend prints (the WGSL `RayDesc` struct, the
//! `RayIntersection` struct and the `RayQuery` value type) are passed in as
//! text.

use vstd::prelude::*;
use vstd::string::*;

verus! {

/// Name of the HLSL function that maps a DXR hit kind to a WGSL intersection kind.
pub open spec fn map_hit_name() -> Seq<char> {
    "map_hit"@
}

/// Name of the HLSL function that maps a DXR hit kind to a front-face flag.
pub open spec fn map_front_face_name() -> Seq<char> {
    "map_front_face"@
}

/// Kinds of intersection reported by a ray query, with the numbering that the
/// WGSL `RayIntersection::kind` field uses.
#[derive(Clone, Copy, Debug, PartialEq, Eq, Structural)]
pub enum RayQueryIntersection {
    Nothing,
    Triangle,
    Generated,
    Aabb,
}

impl RayQueryIntersection {
    /// The numeric value of the kind.
    pub open spec fn value(self) -> nat {
        match self {
            RayQueryIntersection::Nothing => 0,
            RayQueryIntersection::Triangle => 1,
            RayQueryIntersection::Generated => 2,
            RayQueryIntersection::Aabb => 3,
        }
    }

    /// The kind printed as a decimal number.
    pub open spec fn decimal(self) -> Seq<char> {
        seq![((48 + self.value()) as char)]
    }

    /// Returns the kind printed as a decimal number.
    pub fn decimal_text(&self) -> (r: &'static str)
        ensures
            r@ == self.decimal(),
    {
        match self {
            RayQueryIntersection::Nothing => {
                proof { reveal_strlit("0"); }
                "0"
            },
            RayQueryIntersection::Triangle => {
                proof { reveal_strlit("1"); }
                "1"
            },
            RayQueryIntersection::Generated => {
                proof { reveal_strlit("2"); }
                "2"
            },
            RayQueryIntersection::Aabb => {
                proof { reveal_strlit("3"); }
                "3"
            },
        }
    }
}

/// Text of the function that turns a WGSL `RayDesc` into an HLSL `RayDesc`.
pub open spec fn ray_desc_constructor_text(ray_desc_ty: Seq<char>) -> Seq<char> {
    "RayDesc RayDescFromRayDesc_("@ + ray_desc_ty + " arg0) {\n"@
        + "    RayDesc ret = (RayDesc)0;\n    ret.Origin = arg0.origin;\n    ret.TMin = arg0.tmin;\n    ret.Direction = arg0.dir;\n    ret.TMax = arg0.tmax;\n    return ret;\n}\n\n"@
}

/// Text of the function that reads the committed intersection of a ray query.
pub open spec fn committed_intersection_text(intersection_ty: Seq<char>, ray_query_ty: Seq<char>) -> Seq<char> {
    intersection_ty + " GetCommittedIntersection("@ + ray_query_ty + " rq) {\n    "@ + intersection_ty
        + " ret = ("@ + intersection_ty + ")0;\n"@ + committed_intersection_body()
}

/// The part of the committed intersection function that depends on no type name.
pub open spec fn committed_intersection_body() -> Seq<char> {
    "    ret.kind = rq.CommittedStatus();\n    if( rq.CommittedStatus() == COMMITTED_NOTHING) {} else {\n        ret.t = rq.CommittedRayT();\n        ret.instance_custom_index = rq.CommittedInstanceID();\n        ret.instance_id = rq.CommittedInstanceIndex();\n        ret.sbt_record_offset = rq.CommittedInstanceContributionToHitGroupIndex();\n        ret.geometry_index = rq.CommittedGeometryIndex();\n        ret.primitive_index = rq.CommittedPrimitiveIndex();\n        if( rq.CommittedStatus() == COMMITTED_TRIANGLE_HIT ) {\n            ret.barycentrics = rq.CommittedTriangleBarycentrics();\n            ret.front_face = rq.CommittedTriangleFrontFace();\n        }\n        ret.object_to_world = rq.CommittedObjectToWorld4x3();\n        ret.world_to_object = rq.CommittedWorldToObject4x3();\n    }\n    return ret;\n}\n\n"@
}

/// Text of the function that reads the candidate intersection of a ray query.
pub open spec fn candidate_intersection_text(intersection_ty: Seq<char>, ray_query_ty: Seq<char>) -> Seq<char> {
    intersection_ty + " GetCandidateIntersection("@ + ray_query_ty + " rq) {\n    "@ + intersection_ty
        + " ret = ("@ + intersection_ty + ")0;\n"@
        + "    CANDIDATE_TYPE kind = rq.CandidateType();\n    if (kind == CANDIDATE_NON_OPAQUE_TRIANGLE) {\n        ret.kind = "@
        + RayQueryIntersection::Triangle.decimal()
        + ";\n        ret.t = rq.CandidateTriangleRayT();\n        ret.barycentrics = rq.CandidateTriangleBarycentrics();\n        ret.front_face = rq.CandidateTriangleFrontFace();\n    } else {\n        ret.kind = "@
        + RayQueryIntersection::Aabb.decimal() + candidate_intersection_tail()
}

/// The part of the candidate intersection function after the AABB kind.
pub open spec fn candidate_intersection_tail() -> Seq<char> {
    ";\n    }\n    ret.instance_custom_index = rq.CandidateInstanceID();\n    ret.instance_id = rq.CandidateInstanceIndex();\n    ret.sbt_record_offset = rq.CandidateInstanceContributionToHitGroupIndex();\n    ret.geometry_index = rq.CandidateGeometryIndex();\n    ret.primitive_index = rq.CandidatePrimitiveIndex();\n    ret.object_to_world = rq.CandidateObjectToWorld4x3();\n    ret.world_to_object = rq.CandidateWorldToObject4x3();\n    return ret;\n}\n\n"@
}

/// Text of the function that maps a DXR hit kind (254 and 255 are the front
/// and back face triangle hits) to the triangle intersection kind.
pub open spec fn map_hit_text() -> Seq<char> {
    "uint "@ + map_hit_name() + "(uint kind) {if (kind == 254 || kind == 255) {return "@
        + RayQueryIntersection::Triangle.decimal() + ";\n    } else {return kind;\n    }}\n"@
}

/// Text of the function that maps a DXR hit kind to whether the front face was hit.
pub open spec fn map_front_face_text() -> Seq<char> {
    "bool "@ + map_front_face_name()
        + "(uint kind) {if (kind == 254) {return true;\n    } else {return false;\n    }}\n"@
}

/// The part of the HLSL backend's state that the ray query helpers use.
pub struct Writer {
    /// The HLSL text written so far.
    pub out: String,
    /// Set once the hit-kind mapping function has been written.
    pub written_hit_map: bool,
    /// Set once the front-face mapping function has been written.
    pub written_front_face_map: bool,
}

impl Writer {
    /// A writer with no text written yet.
    pub fn new() -> (w: Writer)
        ensures
            w.out@ == Seq::<char>::empty(),
            !w.written_hit_map,
            !w.written_front_face_map,
    {
        Writer { out: String::new(), written_hit_map: false, written_front_face_map: false }
    }

    /// Writes the HLSL function that builds an HLSL `RayDesc` from the WGSL
    /// `RayDesc` struct, whose HLSL name is `ray_desc_ty`.
    pub fn write_ray_desc_from_ray_desc_constructor_function(&mut self, ray_desc_ty: &str)
        ensures
            final(self).out@ == old(self).out@ + ray_desc_constructor_text(ray_desc_ty@),
            final(self).written_hit_map == old(self).written_hit_map,
            final(self).written_front_face_map == old(self).written_front_face_map,
    {
        self.out.append("RayDesc RayDescFromRayDesc_(");
        self.out.append(ray_desc_ty);
        self.out.append(" arg0) {\n");
        self.out.append("    RayDesc ret = (RayDesc)0;\n    ret.Origin = arg0.origin;\n    ret.TMin = arg0.tmin;\n    ret.Direction = arg0.dir;\n    ret.TMax = arg0.tmax;\n    return ret;\n}\n\n");
    }

    /// Writes `GetCommittedIntersection`, given the HLSL names of the WGSL
    /// `RayIntersection` struct and of the ray query type.
    pub fn write_committed_intersection_function(&mut self, intersection_ty: &str, ray_query_ty: &str)
        ensures
            final(self).out@ == old(self).out@ + committed_intersection_text(intersection_ty@, ray_query_ty@),
            final(self).written_hit_map == old(self).written_hit_map,
            final(self).written_front_face_map == old(self).written_front_face_map,
    {
        self.out.append(intersection_ty);
        self.out.append(" GetCommittedIntersection(");
        self.out.append(ray_query_ty);
        self.out.append(" rq) {\n    ");
        self.out.append(intersection_ty);
        self.out.append(" ret = (");
        self.out.append(intersection_ty);
        self.out.append(")0;\n");
        self.out.append("    ret.kind = rq.CommittedStatus();\n    if( rq.CommittedStatus() == COMMITTED_NOTHING) {} else {\n        ret.t = rq.CommittedRayT();\n        ret.instance_custom_index = rq.CommittedInstanceID();\n        ret.instance_id = rq.CommittedInstanceIndex();\n        ret.sbt_record_offset = rq.CommittedInstanceContributionToHitGroupIndex();\n        ret.geometry_index = rq.CommittedGeometryIndex();\n        ret.primitive_index = rq.CommittedPrimitiveIndex();\n        if( rq.CommittedStatus() == COMMITTED_TRIANGLE_HIT ) {\n            ret.barycentrics = rq.CommittedTriangleBarycentrics();\n            ret.front_face = rq.CommittedTriangleFrontFace();\n        }\n        ret.object_to_world = rq.CommittedObjectToWorld4x3();\n        ret.world_to_object = rq.CommittedWorldToObject4x3();\n    }\n    return ret;\n}\n\n");
    }

    /// Writes `GetCandidateIntersection`, given the HLSL names of the WGSL
    /// `RayIntersection` struct and of the ray query type.
    pub fn write_candidate_intersection_function(&mut self, intersection_ty: &str, ray_query_ty: &str)
        ensures
            final(self).out@ == old(self).out@ + candidate_intersection_text(intersection_ty@, ray_query_ty@),
            final(self).written_hit_map == old(self).written_hit_map,
            final(self).written_front_face_map == old(self).written_front_face_map,
    {
        self.out.append(intersection_ty);
        self.out.append(" GetCandidateIntersection(");
        self.out.append(ray_query_ty);
        self.out.append(" rq) {\n    ");
        self.out.append(intersection_ty);
        self.out.append(" ret = (");
        self.out.append(intersection_ty);
        self.out.append(")0;\n");
        self.out.append("    CANDIDATE_TYPE kind = rq.CandidateType();\n    if (kind == CANDIDATE_NON_OPAQUE_TRIANGLE) {\n        ret.kind = ");
        self.out.append(RayQueryIntersection::Triangle.decimal_text());
        self.out.append(";\n        ret.t = rq.CandidateTriangleRayT();\n        ret.barycentrics = rq.CandidateTriangleBarycentrics();\n        ret.front_face = rq.CandidateTriangleFrontFace();\n    } else {\n        ret.kind = ");
        self.out.append(RayQueryIntersection::Aabb.decimal_text());
        self.out.append(";\n    }\n    ret.instance_custom_index = rq.CandidateInstanceID();\n    ret.instance_id = rq.CandidateInstanceIndex();\n    ret.sbt_record_offset = rq.CandidateInstanceContributionToHitGroupIndex();\n    ret.geometry_index = rq.CandidateGeometryIndex();\n    ret.primitive_index = rq.CandidatePrimitiveIndex();\n    ret.object_to_world = rq.CandidateObjectToWorld4x3();\n    ret.world_to_object = rq.CandidateWorldToObject4x3();\n    return ret;\n}\n\n");
    }

    /// Writes the hit-kind mapping function, unless `written_hit_map` is set,
    /// in which case nothing is written.  The flag itself is left unchanged.
    pub fn write_map_hit(&mut self)
        ensures
            final(self).out@ == (if old(self).written_hit_map { old(self).out@ } else {
                old(self).out@ + map_hit_text()
            }),
            final(self).written_hit_map == old(self).written_hit_map,
            final(self).written_front_face_map == old(self).written_front_face_map,
    {
        if self.written_hit_map {
            return;
        }
        self.out.append("uint ");
        self.out.append("map_hit");
        self.out.append("(uint kind) {if (kind == 254 || kind == 255) {return ");
        self.out.append(RayQueryIntersection::Triangle.decimal_text());
        self.out.append(";\n    } else {return kind;\n    }}\n");
    }

    /// Writes the front-face mapping function, unless `written_front_face_map`
    /// is set, in which case nothing is written.  The flag is left unchanged.
    pub fn write_map_front_face(&mut self)
        ensures
            final(self).out@ == (if old(self).written_front_face_map { old(self).out@ } else {
                old(self).out@ + map_front_face_text()
            }),
            final(self).written_hit_map == old(self).written_hit_map,
            final(self).written_front_face_map == old(self).written_front_face_map,
    {
        if self.written_front_face_map {
            return;
        }
        self.out.append("bool ");
        self.out.append("map_front_face");
        self.out.append("(uint kind) {if (kind == 254) {return true;\n    } else {return false;\n    }}\n");
    }
}


/// What the backend needs to know of a type: whether it is a struct.
#[derive(Clone, Copy, Debug, PartialEq, Eq, Structural)]
pub enum TypeInner {
    Struct,
    Other,
}

/// The statements that can hold a ray tracing `ReportIntersection` call,
/// directly or through nested blocks and called functions.  Every other
/// statement is `Other`.
pub enum Statement {
    /// `ReportIntersection` with the handle of the intersection's type.
    ReportIntersection { intersection_ty: usize },
    Block(Vec<Statement>),
    If { accept: Vec<Statement>, reject: Vec<Statement> },
    /// A call of the function with the given handle.
    Call { function: usize },
    Loop { body: Vec<Statement>, continuing: Vec<Statement> },
    Switch { cases: Vec<Vec<Statement>> },
    Other,
}

/// A function of a shader module: only its body matters here.
pub struct Function {
    pub body: Vec<Statement>,
}

/// The parts of a shader module that the wrapper search reads.
pub struct Module {
    pub types: Vec<TypeInner>,
    pub functions: Vec<Function>,
}

/// Handles in `s` are valid, and every call in it goes to a function whose
/// handle is below `level`.
pub open spec fn stmt_well_formed(m: &Module, s: &Statement, level: nat) -> bool
    decreases s,
{
    match s {
        Statement::ReportIntersection { intersection_ty } => *intersection_ty < m.types@.len(),
        Statement::Block(b) => forall|i: int| 0 <= i < b@.len() ==> stmt_well_formed(m, #[trigger] &b@[i], level),
        Statement::If { accept, reject } => {
            &&& forall|i: int| 0 <= i < accept@.len() ==> stmt_well_formed(m, #[trigger] &accept@[i], level)
            &&& forall|i: int| 0 <= i < reject@.len() ==> stmt_well_formed(m, #[trigger] &reject@[i], level)
        },
        Statement::Call { function } => *function < level && *function < m.functions@.len(),
        Statement::Loop { body, continuing } => {
            &&& forall|i: int| 0 <= i < body@.len() ==> stmt_well_formed(m, #[trigger] &body@[i], level)
            &&& forall|i: int| 0 <= i < continuing@.len() ==> stmt_well_formed(m, #[trigger] &continuing@[i], level)
        },
        Statement::Switch { cases } => forall|c: int, i: int|
            0 <= c < cases@.len() && 0 <= i < cases@[c]@.len() ==> stmt_well_formed(m, #[trigger] &cases@[c]@[i], level),
        Statement::Other => true,
    }
}

/// Every statement of `b` is well formed at `level`.
pub open spec fn block_well_formed(m: &Module, b: Seq<Statement>, level: nat) -> bool {
    forall|i: int| 0 <= i < b.len() ==> stmt_well_formed(m, #[trigger] &b[i], level)
}

/// A validated module: each function calls only functions defined before it.
pub open spec fn module_well_formed(m: &Module) -> bool {
    forall|f: int| 0 <= f < m.functions@.len() ==> block_well_formed(m, #[trigger] m.functions@[f].body@, f as nat)
}

/// The intersection type of the first `ReportIntersection` among the
/// statements of `b` themselves (not looking into nested blocks).
pub open spec fn direct_report(b: Seq<Statement>) -> Option<usize>
    decreases b.len(),
{
    if b.len() == 0 {
        None
    } else {
        match direct_report(b.drop_last()) {
            Some(t) => Some(t),
            None => match b.last() {
                Statement::ReportIntersection { intersection_ty } => Some(intersection_ty),
                _ => None,
            },
        }
    }
}

/// The search order of the backend's work list: a block's own statements are
/// scanned first; then the blocks it holds (nested blocks, branches, loop
/// bodies, switch cases and called functions' bodies) are searched, the last
/// one first.
pub open spec fn search_block(m: &Module, b: Seq<Statement>, level: nat) -> Option<usize>
    decreases level, b, b.len() + 1,
{
    match direct_report(b) {
        Some(t) => Some(t),
        None => search_rev(m, b, level, b.len()),
    }
}

/// Searches the blocks held by the first `n` statements of `b`, last first.
pub open spec fn search_rev(m: &Module, b: Seq<Statement>, level: nat, n: nat) -> Option<usize>
    decreases level, b, n,
{
    if n == 0 || n > b.len() {
        None
    } else {
        match search_stmt(m, &b[n - 1], level) {
            Some(t) => Some(t),
            None => search_rev(m, b, level, (n - 1) as nat),
        }
    }
}

/// Searches the blocks that one statement holds, last first.
pub open spec fn search_stmt(m: &Module, s: &Statement, level: nat) -> Option<usize>
    decreases level, *s, 0nat,
{
    match s {
        Statement::Block(b) => search_block(m, b@, level),
        Statement::If { accept, reject } => match search_block(m, reject@, level) {
            Some(t) => Some(t),
            None => search_block(m, accept@, level),
        },
        Statement::Call { function } => if *function < level && *function < m.functions@.len() {
            search_block(m, m.functions@[*function as int].body@, *function as nat)
        } else {
            None
        },
        Statement::Loop { body, continuing } => match search_block(m, continuing@, level) {
            Some(t) => Some(t),
            None => search_block(m, body@, level),
        },
        Statement::Switch { cases } => search_cases(m, cases@, level, cases@.len()),
        _ => None,
    }
}

/// Searches the first `n` switch cases, last first.
pub open spec fn search_cases(m: &Module, cases: Seq<Vec<Statement>>, level: nat, n: nat) -> Option<usize>
    decreases level, cases, n,
{
    if n == 0 || n > cases.len() {
        None
    } else {
        match search_block(m, cases[n - 1]@, level) {
            Some(t) => Some(t),
            None => search_cases(m, cases, level, (n - 1) as nat),
        }
    }
}

/// The intersection type whose wrapper struct constructor must be written for
/// `block`: the type of the first `ReportIntersection` found, if that type is
/// not already a struct.
pub open spec fn wrapper_constructor_needed(m: &Module, block: Seq<Statement>) -> Option<usize> {
    match search_block(m, block, m.functions@.len()) {
        Some(t) => if m.types@[t as int] == TypeInner::Struct { None } else { Some(t) },
        None => None,
    }
}


/// `s` holds a `ReportIntersection` of type `t`: itself, or inside one of
/// the blocks it holds (at any depth), or in the body of a function that it
/// calls whose handle is below `level`.
pub open spec fn stmt_reports(m: &Module, s: &Statement, level: nat, t: usize) -> bool
    decreases level, *s, 0nat,
{
    match s {
        Statement::ReportIntersection { intersection_ty } => *intersection_ty == t,
        Statement::Block(b) => block_reports(m, b@, level, t),
        Statement::If { accept, reject } => block_reports(m, accept@, level, t) || block_reports(m, reject@, level, t),
        Statement::Call { function } => *function < level && *function < m.functions@.len() && block_reports(
            m,
            m.functions@[*function as int].body@,
            *function as nat,
            t,
        ),
        Statement::Loop { body, continuing } => block_reports(m, body@, level, t) || block_reports(
            m,
            continuing@,
            level,
            t,
        ),
        Statement::Switch { cases } => exists|c: int| 0 <= c < cases@.len() && block_reports(m, #[trigger] cases@[c]@, level, t),
        Statement::Other => false,
    }
}

/// Some statement of `b` holds a `ReportIntersection` of type `t`.
pub open spec fn block_reports(m: &Module, b: Seq<Statement>, level: nat, t: usize) -> bool
    decreases level, b, 1nat,
{
    exists|i: int| 0 <= i < b.len() && stmt_reports(m, #[trigger] &b[i], level, t)
}

proof fn lemma_direct_report_prefix(b: Seq<Statement>, i: int)
    requires
        0 <= i < b.len(),
    ensures
        direct_report(b.take(i + 1)) == (match direct_report(b.take(i)) {
            Some(t) => Some(t),
            None => match b[i] {
                Statement::ReportIntersection { intersection_ty } => Some(intersection_ty),
                _ => None,
            },
        }),
{
    assert(b.take(i + 1).drop_last() =~= b.take(i));
}

/// Returns the intersection type of the first `ReportIntersection` among the
/// statements of `b` themselves.
fn find_direct_report(m: &Module, b: &Vec<Statement>, level: usize) -> (r: Option<usize>)
    requires
        block_well_formed(m, b@, level as nat),
    ensures
        r == direct_report(b@),
        r matches Some(t) ==> t < m.types@.len(),
{
    let mut i: usize = 0;
    while i < b.len()
        invariant
            i <= b@.len(),
            block_well_formed(m, b@, level as nat),
            direct_report(b@.take(i as int)) == None::<usize>,
        decreases b@.len() - i,
    {
        proof { lemma_direct_report_prefix(b@, i as int); }
        if let Statement::ReportIntersection { intersection_ty } = &b[i] {
            assert(b@.take(b@.len() as int) =~= b@);
            proof { lemma_direct_report_extends(b@, i as int + 1); }
            assert(stmt_well_formed(m, &b@[i as int], level as nat));
            return Some(*intersection_ty);
        }
        i = i + 1;
    }
    assert(b@.take(b@.len() as int) =~= b@);
    None
}

proof fn lemma_direct_report_extends(b: Seq<Statement>, k: int)
    requires
        0 <= k <= b.len(),
        direct_report(b.take(k)) is Some,
    ensures
        direct_report(b) == direct_report(b.take(k)),
    decreases b.len() - k,
{
    if k < b.len() {
        lemma_direct_report_prefix(b, k);
        lemma_direct_report_extends(b, k + 1);
    } else {
        assert(b.take(k) =~= b);
    }
}

/// Searches `b` in the order of `search_block`.
fn search_block_exec(m: &Module, b: &Vec<Statement>, level: usize) -> (r: Option<usize>)
    requires
        module_well_formed(m),
        block_well_formed(m, b@, level as nat),
        level <= m.functions@.len(),
    ensures
        r == search_block(m, b@, level as nat),
        r matches Some(t) ==> t < m.types@.len(),
    decreases level, b@, b@.len() + 1,
{
    let direct = find_direct_report(m, b, level);
    if direct.is_some() {
        return direct;
    }
    let mut n: usize = b.len();
    while n > 0
        invariant
            n <= b@.len(),
            module_well_formed(m),
            block_well_formed(m, b@, level as nat),
            level <= m.functions@.len(),
            direct_report(b@) == None::<usize>,
            search_rev(m, b@, level as nat, b@.len()) == search_rev(m, b@, level as nat, n as nat),
        decreases n,
    {
        let r = search_stmt_exec(m, &b[n - 1], level);
        if r.is_some() {
            return r;
        }
        n = n - 1;
    }
    None
}

/// Searches the blocks that `s` holds in the order of `search_stmt`.
fn search_stmt_exec(m: &Module, s: &Statement, level: usize) -> (r: Option<usize>)
    requires
        module_well_formed(m),
        stmt_well_formed(m, s, level as nat),
        level <= m.functions@.len(),
    ensures
        r == search_stmt(m, s, level as nat),
        r matches Some(t) ==> t < m.types@.len(),
    decreases level, *s, 0nat,
{
    match s {
        Statement::Block(b) => search_block_exec(m, b, level),
        Statement::If { accept, reject } => {
            let r = search_block_exec(m, reject, level);
            if r.is_some() {
                r
            } else {
                search_block_exec(m, accept, level)
            }
        },
        Statement::Call { function } => {
            let f = *function;
            assert(block_well_formed(m, m.functions@[f as int].body@, f as nat));
            search_block_exec(m, &m.functions[f].body, f)
        },
        Statement::Loop { body, continuing } => {
            let r = search_block_exec(m, continuing, level);
            if r.is_some() {
                r
            } else {
                search_block_exec(m, body, level)
            }
        },
        Statement::Switch { cases } => {
            let mut n: usize = cases.len();
            while n > 0
                invariant
                    n <= cases@.len(),
                    module_well_formed(m),
                    stmt_well_formed(m, s, level as nat),
                    *s == (Statement::Switch { cases: *cases }),
                    level <= m.functions@.len(),
                    search_cases(m, cases@, level as nat, cases@.len()) == search_cases(m, cases@, level as nat, n as nat),
                decreases n,
            {
                assert(block_well_formed(m, cases@[n - 1]@, level as nat));
                let r = search_block_exec(m, &cases[n - 1], level);
                if r.is_some() {
                    return r;
                }
                n = n - 1;
            }
            None
        },
        _ => None,
    }
}

proof fn lemma_direct_report_found(b: Seq<Statement>)
    ensures
        match direct_report(b) {
            Some(t) => exists|i: int| 0 <= i < b.len() && b[i] == (Statement::ReportIntersection { intersection_ty: t }),
            None => forall|i: int| 0 <= i < b.len() ==> !(#[trigger] b[i] is ReportIntersection),
        },
    decreases b.len(),
{
    if b.len() > 0 {
        let p = b.drop_last();
        lemma_direct_report_found(p);
        assert forall|i: int| 0 <= i < p.len() implies p[i] == b[i] by {}
        match direct_report(p) {
            Some(t) => {
                let i = choose|i: int| 0 <= i < p.len() && p[i] == (Statement::ReportIntersection { intersection_ty: t });
                assert(b[i] == p[i]);
            },
            None => {
                assert(b.last() == b[b.len() - 1]);
            },
        }
    }
}

proof fn lemma_search_block_found(m: &Module, b: Seq<Statement>, level: nat)
    ensures
        match search_block(m, b, level) {
            Some(t) => block_reports(m, b, level, t),
            None => forall|t: usize| !block_reports(m, b, level, t),
        },
    decreases level, b, b.len() + 1,
{
    lemma_direct_report_found(b);
    match direct_report(b) {
        Some(t) => {
            let i = choose|i: int| 0 <= i < b.len() && b[i] == (Statement::ReportIntersection { intersection_ty: t });
            assert(stmt_reports(m, &b[i], level, t));
        },
        None => {
            lemma_search_rev_found(m, b, level, b.len());
            assert(search_block(m, b, level) == search_rev(m, b, level, b.len()));
            if search_rev(m, b, level, b.len()) is None {
                assert forall|t: usize| !block_reports(m, b, level, t) by {
                    assert forall|i: int| 0 <= i < b.len() implies !stmt_reports(m, &b[i], level, t) by {
                        assert(!(b[i] is ReportIntersection));
                    }
                }
            }
        },
    }
}

proof fn lemma_search_rev_found(m: &Module, b: Seq<Statement>, level: nat, n: nat)
    requires
        n <= b.len(),
    ensures
        match search_rev(m, b, level, n) {
            Some(t) => exists|i: int| 0 <= i < n && stmt_reports(m, #[trigger] &b[i], level, t),
            None => forall|i: int, t: usize|
                0 <= i < n && !(b[i] is ReportIntersection) ==> !#[trigger] stmt_reports(m, &b[i], level, t),
        },
    decreases level, b, n,
{
    if n > 0 {
        lemma_search_stmt_found(m, &b[n - 1], level);
        lemma_search_rev_found(m, b, level, (n - 1) as nat);
        if search_stmt(m, &b[n - 1], level) is Some {
            assert(stmt_reports(m, &b[n - 1], level, search_stmt(m, &b[n - 1], level)->0));
        }
    }
}

proof fn lemma_search_stmt_found(m: &Module, s: &Statement, level: nat)
    ensures
        search_stmt(m, s, level) matches Some(t) ==> stmt_reports(m, s, level, t),
        search_stmt(m, s, level) is None && !(s is ReportIntersection) ==> forall|t: usize| !stmt_reports(m, s, level, t),
    decreases level, *s, 0nat,
{
    match s {
        Statement::Block(b) => {
            lemma_search_block_found(m, b@, level);
            assert forall|t: usize| stmt_reports(m, s, level, t) == block_reports(m, b@, level, t) by {}
        },
        Statement::If { accept, reject } => {
            lemma_search_block_found(m, reject@, level);
            lemma_search_block_found(m, accept@, level);
            assert forall|t: usize| stmt_reports(m, s, level, t) == (block_reports(m, accept@, level, t) || block_reports(
                m,
                reject@,
                level,
                t,
            )) by {}
        },
        Statement::Call { function } => {
            if *function < level && *function < m.functions@.len() {
                lemma_search_block_found(m, m.functions@[*function as int].body@, *function as nat);
            }
            assert forall|t: usize| stmt_reports(m, s, level, t) == (*function < level && *function < m.functions@.len()
                && block_reports(m, m.functions@[*function as int].body@, *function as nat, t)) by {}
        },
        Statement::Loop { body, continuing } => {
            lemma_search_block_found(m, continuing@, level);
            lemma_search_block_found(m, body@, level);
            assert forall|t: usize| stmt_reports(m, s, level, t) == (block_reports(m, body@, level, t) || block_reports(
                m,
                continuing@,
                level,
                t,
            )) by {}
        },
        Statement::Switch { cases } => {
            lemma_search_cases_found(m, cases@, level, cases@.len());
            if search_stmt(m, s, level) is None {
                assert forall|t: usize| !stmt_reports(m, s, level, t) by {
                    assert forall|c: int| 0 <= c < cases@.len() implies !block_reports(m, cases@[c]@, level, t) by {}
                }
            }
        },
        _ => {},
    }
}

proof fn lemma_search_cases_found(m: &Module, cases: Seq<Vec<Statement>>, level: nat, n: nat)
    requires
        n <= cases.len(),
    ensures
        match search_cases(m, cases, level, n) {
            Some(t) => exists|c: int| 0 <= c < n && block_reports(m, #[trigger] cases[c]@, level, t),
            None => forall|c: int, t: usize| 0 <= c < n ==> !#[trigger] block_reports(m, cases[c]@, level, t),
        },
    decreases level, cases, n,
{
    if n > 0 {
        lemma_search_block_found(m, cases[n - 1]@, level);
        lemma_search_cases_found(m, cases, level, (n - 1) as nat);
        if search_block(m, cases[n - 1]@, level) is Some {
            assert(block_reports(m, cases[n - 1]@, level, search_block(m, cases[n - 1]@, level)->0));
        }
    }
}

/// The search finds every `ReportIntersection` that a block holds: it gives
/// a type exactly when some statement of the block holds a report, at any
/// depth (in either branch of an `if`, a loop's body or continuing block, a
/// switch case, a nested block or a called function's body), and the type it
/// gives is that of such a report.
pub proof fn lemma_search_finds_reports(m: &Module, b: Seq<Statement>, level: nat)
    ensures
        search_block(m, b, level) is Some <==> exists|t: usize| block_reports(m, b, level, t),
        search_block(m, b, level) matches Some(t) ==> block_reports(m, b, level, t),
{
    lemma_search_block_found(m, b, level);
}

/// When every `ReportIntersection` that a block reaches has the same type
/// `t`, a wrapper struct constructor is needed for `t` exactly when `t` is
/// not a struct.
pub proof fn lemma_single_report_type_needs_wrapper(m: &Module, block: Seq<Statement>, t: usize)
    requires
        block_reports(m, block, m.functions@.len(), t),
        forall|u: usize| #[trigger] block_reports(m, block, m.functions@.len(), u) ==> u == t,
    ensures
        wrapper_constructor_needed(m, block) == (if m.types@[t as int] == TypeInner::Struct {
            None::<usize>
        } else {
            Some(t)
        }),
{
    lemma_search_block_found(m, block, m.functions@.len());
}

impl Writer {
    /// Finds the intersection type of the first `ReportIntersection` reachable
    /// from `block` and returns it when the backend must write a wrapper struct
    /// constructor for it, that is when the type is not a struct.  Only one
    /// intersection type may occur in a function, so the search stops at the
    /// first one found.
    pub fn write_wrapper_struct_from_block(&self, module: &Module, block: &Vec<Statement>) -> (r: Option<usize>)
        requires
            module_well_formed(module),
            block_well_formed(module, block@, module.functions@.len()),
        ensures
            r == wrapper_constructor_needed(module, block@),
    {
        match search_block_exec(module, block, module.functions.len()) {
            Some(t) => {
                match module.types[t] {
                    TypeInner::Struct => None,
                    _ => Some(t),
                }
            },
            None => None,
        }
    }
}

} // verus!
