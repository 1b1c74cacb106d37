# wgpu_core (verified ray tracing and compute core)

A Verus library holding the validation, recording and replay logic of
compute passes, ray tracing passes, acceleration structure creation and
builds, ray tracing pipeline creation, and the HLSL helper functions that a
shader backend emits for ray queries.  Every function in `src/` carries a
contract that Verus proves.

Layout of `src/`:

- `resource.rs`, `global.rs`: resources, registries of ids, devices and the
  hub with its well-formedness invariant.
- `pass.rs`, `replay.rs`, `words.rs`, `raw.rs`: what both kinds of pass share:
  encoder states, redundant-state filters, query and timestamp checks, the
  replay state and the commands recorded into the backend's encoder.
- `compute.rs`, `ray_tracing_pass.rs`: recording into a pass and replaying it
  when the pass ends.
- `acceleration_structure.rs`, `as_create.rs`, `as_build.rs`, `as_submit.rs`:
  BLAS and TLAS creation, build validation and planning, and the checks of
  builds and uses made when command buffers are submitted.
- `rt_pipeline.rs`, `api.rs`: ray tracing pipeline creation and the
  user-facing handles.
- `hlsl_ray.rs`: the HLSL text of the ray query helpers.

Backend work (allocating buffers, encoding commands, compiling shaders) is not
done here: the library describes it as a list of `RawCommand`s, and takes
what the backend and the shader validation report as arguments: sizes,
handles, derived layouts, shader binding tables, minimum binding sizes, and
the outcome of checking each shader stage's bindings against the layout,
on which pipeline creation fails as the first failing stage says, and the
backend's own failures, which creation reports after its checks.

`app/` holds what needs outside derives or floating point: error types that
implement `std::error::Error`, and TLAS instances with `f32` transforms.
