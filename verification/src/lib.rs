use vstd::prelude::*;

pub mod built_server;
pub mod container;
pub mod errors;
pub mod plugin;
pub mod protocol_connection;
pub mod server_builder;
pub mod resolve;
pub mod resources;
pub mod type_info;

pub use built_server::BuiltServer;
pub use container::Container;
pub use errors::{BuildError, BuildErrorSpec, Warning, WarningSpec};
pub use plugin::Plugin;
pub use server_builder::{BuildOutcome, ServerBuilder};
pub use resources::{ResourceInit, ResourceInitializer};
pub use type_info::TypeInfo;

verus! {

/// The name a plugin goes by; it doubles as the namespace prefix of the
/// plugin's work-unit labels.
pub type PluginName = &'static str;

} // verus!
