//! A response cache for MCP tool calls.
//!
//! Successful tool results are cached with a configurable TTL. A cached result is served before
//! dispatch, in an `Allow` whose `modified_result` makes the gateway skip the backend.
pub mod canonical;
pub mod canonical_laws;
pub mod config;
pub mod decode;
pub mod decode_laws;
pub mod glob;
pub mod grammar;
pub mod history;
pub mod json;
pub mod key;
pub mod laws;
pub mod model;
pub mod plugin;
pub mod promises;
pub mod protocol;
pub mod refusal;
pub mod store;
pub mod text;

pub use config::{ResponseCacheConfig, ToolCacheConfig};
pub use json::{Decimal, JsonNumber, JsonObject, JsonValue};
pub use key::Call;
pub use model::CacheLookup;
pub use plugin::{PreEvaluation, ResponseCachePlugin};
pub use protocol::{GateDecision, PluginContext, PluginIdentity, PluginManifest};
