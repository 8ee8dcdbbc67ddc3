//! Layered service-configuration engine.
//!
//! The crate assembles a render-ready configuration for a supervised
//! service from four layers (package defaults, process environment,
//! operator overrides, gossip), merges them with a fixed precedence and
//! a bounded-depth table merge, and plans which rendered configuration
//! files actually changed and must be rewritten.

pub mod cfg;
pub mod doc;
pub mod engine;
pub mod errors;
pub mod export;
pub mod formats;
pub mod hashing;
pub mod merge;
pub mod render;
pub mod serialize;

pub use cfg::Cfg;
pub use cfg::CensusGroupView;
pub use cfg::PackageConfigPaths;
pub use cfg::ServiceConfigView;
pub use doc::CfgTable;
pub use doc::CfgValue;
pub use doc::Entry;
pub use errors::CfgError;
pub use merge::toml_merge;
pub use merge::TOML_MAX_MERGE_DEPTH;
pub use render::CfgRenderer;
pub use render::CompileOutcome;
pub use serialize::order_table;
