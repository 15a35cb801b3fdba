//! Verified planning and bookkeeping for out-of-core language-model inference.

pub mod accounting;
pub mod backend;
pub mod budget;
pub mod calibration;
pub mod calibration_run;
pub mod compute_dispatch;
pub mod discovery;
pub mod fingerprint;
pub mod gguf;
pub mod inference;
pub mod kv_cache;
pub mod layer;
pub mod layer_cache;
pub mod layer_read;
pub mod memory_report;
pub mod model;
pub mod model_executor;
pub mod observation;
pub mod orchestration;
pub mod paths;
pub mod persistent;
pub mod plan;
pub mod plan_codec;
pub mod plan_compiler;
pub mod plan_persistence;
pub mod planner;
pub mod profile;
pub mod profiles;
pub mod residency;
pub mod runtime;
pub mod runtime_config;
pub mod sampling;
pub mod scaling;
pub mod scan;
pub mod support;
pub mod text;

pub use budget::MemoryError;
pub use plan::{plan_model, PlanResult};
