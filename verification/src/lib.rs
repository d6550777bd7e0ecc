//! An application-lifecycle and plugin-registration engine.
//!
//! Independently authored units of configuration ("plugins") are composed
//! into a single application with an ordered lifecycle
//! (build, ready, finish, cleanup). The registry keeps descriptors in
//! registration order, detects duplicates by name, and the lifecycle
//! controller advances the application state machine (Adding, Ready,
//! Finished, Cleaned) by recording each descriptor's hooks in registration
//! order.

pub mod admission;
pub mod app;
pub mod errors;
pub mod group;
pub mod laws;
pub mod plugin;
pub mod registry;

pub use admission::PluginGroupMarker;
pub use admission::PluginMarker;
pub use admission::Plugins;
pub use admission::PluginsTupleMarker;
pub use app::App;
pub use app::HookEvent;
pub use app::HookKind;
pub use errors::AppError;
pub use errors::GroupBuildError;
pub use group::PluginGroup;
pub use plugin::Plugin;
pub use plugin::PluginDescriptor;
pub use plugin::PluginsState;
pub use registry::AdmissionPolicy;
pub use registry::PluginRegistry;
