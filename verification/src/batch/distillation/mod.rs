pub mod canon;
pub mod compression;
pub mod graph;
pub mod layout;
pub mod patch;
pub mod scoring;
pub mod pipeline;
pub mod plan;
pub mod target_planner;
pub mod transforms;
