use wgpu_core::hlsl_ray::{Function, Module, RayQueryIntersection, Statement, TypeInner, Writer};

#[test]
fn ray_desc_constructor_is_written_exactly() {
    let mut w = Writer::new();
    w.write_ray_desc_from_ray_desc_constructor_function("RayDesc_");
    let expected = [
        "RayDesc RayDescFromRayDesc_(RayDesc_ arg0) {\n",
        "    RayDesc ret = (RayDesc)0;\n",
        "    ret.Origin = arg0.origin;\n",
        "    ret.TMin = arg0.tmin;\n",
        "    ret.Direction = arg0.dir;\n",
        "    ret.TMax = arg0.tmax;\n",
        "    return ret;\n",
        "}\n",
        "\n",
    ].concat();
    assert_eq!(w.out, expected);
}

#[test]
fn committed_intersection_is_written_exactly() {
    let mut w = Writer::new();
    w.write_committed_intersection_function("RayIntersection", "RayQuery<RAY_FLAG_NONE>");
    let expected = [
        "RayIntersection GetCommittedIntersection(RayQuery<RAY_FLAG_NONE> rq) {\n",
        "    RayIntersection ret = (RayIntersection)0;\n",
        "    ret.kind = rq.CommittedStatus();\n",
        "    if( rq.CommittedStatus() == COMMITTED_NOTHING) {} else {\n",
        "        ret.t = rq.CommittedRayT();\n",
        "        ret.instance_custom_index = rq.CommittedInstanceID();\n",
        "        ret.instance_id = rq.CommittedInstanceIndex();\n",
        "        ret.sbt_record_offset = rq.CommittedInstanceContributionToHitGroupIndex();\n",
        "        ret.geometry_index = rq.CommittedGeometryIndex();\n",
        "        ret.primitive_index = rq.CommittedPrimitiveIndex();\n",
        "        if( rq.CommittedStatus() == COMMITTED_TRIANGLE_HIT ) {\n",
        "            ret.barycentrics = rq.CommittedTriangleBarycentrics();\n",
        "            ret.front_face = rq.CommittedTriangleFrontFace();\n",
        "        }\n",
        "        ret.object_to_world = rq.CommittedObjectToWorld4x3();\n",
        "        ret.world_to_object = rq.CommittedWorldToObject4x3();\n",
        "    }\n",
        "    return ret;\n",
        "}\n",
        "\n",
    ].concat();
    assert_eq!(w.out, expected);
}

#[test]
fn candidate_intersection_is_written_exactly() {
    let mut w = Writer::new();
    w.write_candidate_intersection_function("RayIntersection", "RayQuery<RAY_FLAG_NONE>");
    let expected = [
        "RayIntersection GetCandidateIntersection(RayQuery<RAY_FLAG_NONE> rq) {\n",
        "    RayIntersection ret = (RayIntersection)0;\n",
        "    CANDIDATE_TYPE kind = rq.CandidateType();\n",
        "    if (kind == CANDIDATE_NON_OPAQUE_TRIANGLE) {\n",
        "        ret.kind = 1;\n",
        "        ret.t = rq.CandidateTriangleRayT();\n",
        "        ret.barycentrics = rq.CandidateTriangleBarycentrics();\n",
        "        ret.front_face = rq.CandidateTriangleFrontFace();\n",
        "    } else {\n",
        "        ret.kind = 3;\n",
        "    }\n",
        "    ret.instance_custom_index = rq.CandidateInstanceID();\n",
        "    ret.instance_id = rq.CandidateInstanceIndex();\n",
        "    ret.sbt_record_offset = rq.CandidateInstanceContributionToHitGroupIndex();\n",
        "    ret.geometry_index = rq.CandidateGeometryIndex();\n",
        "    ret.primitive_index = rq.CandidatePrimitiveIndex();\n",
        "    ret.object_to_world = rq.CandidateObjectToWorld4x3();\n",
        "    ret.world_to_object = rq.CandidateWorldToObject4x3();\n",
        "    return ret;\n",
        "}\n",
        "\n",
    ].concat();
    assert_eq!(w.out, expected);
}

#[test]
fn map_hit_is_written_once_unless_already_written() {
    let mut w = Writer::new();
    w.write_map_hit();
    assert_eq!(
        w.out,
        "uint map_hit(uint kind) {if (kind == 254 || kind == 255) {return 1;\n    } else {return kind;\n    }}\n"
    );
    let mut done = Writer::new();
    done.written_hit_map = true;
    done.write_map_hit();
    assert_eq!(done.out, "");
    assert!(done.written_hit_map);
}

#[test]
fn map_front_face_is_written_once_unless_already_written() {
    let mut w = Writer::new();
    w.write_map_front_face();
    assert_eq!(
        w.out,
        "bool map_front_face(uint kind) {if (kind == 254) {return true;\n    } else {return false;\n    }}\n"
    );
    let mut done = Writer::new();
    done.written_front_face_map = true;
    done.write_map_front_face();
    assert_eq!(done.out, "");
}

#[test]
fn writing_appends_to_earlier_text() {
    let mut w = Writer::new();
    w.out.push_str("// header\n");
    w.write_map_front_face();
    assert!(w.out.starts_with("// header\nbool map_front_face"));
}

#[test]
fn intersection_kinds_print_their_numbers() {
    assert_eq!(RayQueryIntersection::Nothing.decimal_text(), "0");
    assert_eq!(RayQueryIntersection::Triangle.decimal_text(), "1");
    assert_eq!(RayQueryIntersection::Generated.decimal_text(), "2");
    assert_eq!(RayQueryIntersection::Aabb.decimal_text(), "3");
}

fn module_with(types: Vec<TypeInner>, functions: Vec<Function>) -> Module {
    Module { types, functions }
}

#[test]
fn wrapper_needed_for_a_non_struct_intersection_type() {
    let m = module_with(vec![TypeInner::Struct, TypeInner::Other], vec![]);
    let block = vec![Statement::Other, Statement::ReportIntersection { intersection_ty: 1 }];
    assert_eq!(Writer::new().write_wrapper_struct_from_block(&m, &block), Some(1));
}

#[test]
fn no_wrapper_for_a_struct_intersection_type() {
    let m = module_with(vec![TypeInner::Struct, TypeInner::Other], vec![]);
    let block = vec![Statement::ReportIntersection { intersection_ty: 0 }];
    assert_eq!(Writer::new().write_wrapper_struct_from_block(&m, &block), None);
}

#[test]
fn no_wrapper_without_a_report() {
    let m = module_with(vec![TypeInner::Other], vec![]);
    let block = vec![Statement::Other, Statement::Block(vec![Statement::Other])];
    assert_eq!(Writer::new().write_wrapper_struct_from_block(&m, &block), None);
}

#[test]
fn wrapper_search_looks_at_the_statements_of_a_block_before_its_nested_blocks() {
    let m = module_with(vec![TypeInner::Other, TypeInner::Other], vec![]);
    let block = vec![
        Statement::Block(vec![Statement::ReportIntersection { intersection_ty: 0 }]),
        Statement::ReportIntersection { intersection_ty: 1 },
    ];
    assert_eq!(Writer::new().write_wrapper_struct_from_block(&m, &block), Some(1));
}

#[test]
fn wrapper_search_takes_the_last_nested_block_first() {
    let m = module_with(vec![TypeInner::Other, TypeInner::Other], vec![]);
    let block = vec![Statement::If {
        accept: vec![Statement::ReportIntersection { intersection_ty: 0 }],
        reject: vec![Statement::ReportIntersection { intersection_ty: 1 }],
    }];
    assert_eq!(Writer::new().write_wrapper_struct_from_block(&m, &block), Some(1));
}

#[test]
fn wrapper_search_follows_calls() {
    let m = module_with(
        vec![TypeInner::Struct, TypeInner::Other],
        vec![Function { body: vec![Statement::ReportIntersection { intersection_ty: 1 }] }],
    );
    let block = vec![Statement::Call { function: 0 }];
    assert_eq!(Writer::new().write_wrapper_struct_from_block(&m, &block), Some(1));
}
