//! Validation, recording and replay logic for compute passes, ray tracing
//! passes and acceleration structure builds, together with the HLSL helper
//! functions that the shader backend emits for ray queries.

pub mod hlsl_ray;
pub mod resource;
pub mod raw;
pub mod pass;
pub mod acceleration_structure;
pub mod global;
pub mod compute;
pub mod words;
pub mod replay;
pub mod ray_tracing_pass;
pub mod as_submit;
pub mod as_build;
pub mod as_create;
pub mod rt_pipeline;
pub mod api;
