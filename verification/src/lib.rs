//! Verified building blocks of a turn-based ship combat simulator: deterministic random
//! numbers, hostile tag masks, instant-loss rules, condition gates, effect compilation
//! helpers, crew policies and combat log validation.

pub mod rng;
pub mod text;
pub mod hostile_tags;
pub mod evolutionary_assimilation;
pub mod conqueror_borg_beams;
pub mod crew_nullification;
pub mod abilities;
pub mod effect_spec_compile;
pub mod perturb;
pub mod condition;
pub mod snapshot;
pub mod stacking;
pub mod simd_damage_kernel;
pub mod effect_accumulator;
pub mod engine;
pub mod log_validate;
pub mod log_ingest;
pub mod log_import_normalize;
pub mod types;
pub mod export_csv;
