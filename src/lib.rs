//! Synchronisation engine for a locally installed content package: change
//! classification, mirror rotation with stall detection, asset sharding and
//! reconciliation of the local asset tree.

mod text;
pub mod shard;
pub mod sanitize;
pub mod transport;
pub mod json;
pub mod diff;
pub mod code_sync;
pub mod manifest;
pub mod assets;
