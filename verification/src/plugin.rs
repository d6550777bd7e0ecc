//! Plugin descriptors, the plugin capability set, and the lifecycle states.

use vstd::prelude::*;

verus! {

/// The lifecycle state of the application with respect to its plugins.
///
/// The state only ever moves forward: Adding, then Ready, then Finished,
/// then Cleaned. Cleaned is terminal.
#[derive(PartialEq, Eq, Structural, Debug, Clone, Copy, PartialOrd, Ord)]
pub enum PluginsState {
    /// Plugins are being added.
    Adding,
    /// All plugins already added are ready.
    Ready,
    /// Finish has been executed for all plugins added.
    Finished,
    /// Cleanup has been executed for all plugins added.
    Cleaned,
}

/// Position of a lifecycle state along the forward-only order.
pub open spec fn state_index(s: PluginsState) -> int {
    match s {
        PluginsState::Adding => 0,
        PluginsState::Ready => 1,
        PluginsState::Finished => 2,
        PluginsState::Cleaned => 3,
    }
}

/// `a` comes no later than `b` in the lifecycle order.
pub open spec fn state_leq(a: PluginsState, b: PluginsState) -> bool {
    state_index(a) <= state_index(b)
}

/// The mathematical model of a plugin descriptor: its identity (the name),
/// whether a second same-named descriptor may be registered, and the result
/// of the most recent readiness poll.
pub ghost struct DescModel {
    pub name: Seq<char>,
    pub unique: bool,
    pub ready: bool,
}

/// A registered unit of configuration, described by the plain values the
/// composition protocol reads: its name (the identity used for duplicate
/// detection), its uniqueness flag, and the latest result of its readiness
/// poll.
///
/// A descriptor stands for one plugin inside the verified engine. The code
/// that actually runs a plugin's hooks lives with the embedding application;
/// it reports readiness back through
/// [`App::set_plugin_ready`](crate::app::App::set_plugin_ready) and replays
/// the hook log.
pub struct PluginDescriptor {
    name: String,
    unique: bool,
    ready: bool,
}

impl View for PluginDescriptor {
    type V = DescModel;

    closed spec fn view(&self) -> DescModel {
        DescModel { name: self.name@, unique: self.unique, ready: self.ready }
    }
}

impl PluginDescriptor {
    /// Builds a descriptor from its parts. A freshly built descriptor has
    /// not been polled for readiness yet, so it reports not ready.
    pub fn new(name: String, unique: bool) -> (d: PluginDescriptor)
        ensures
            d@ == (DescModel { name: name@, unique, ready: false }),
    {
        PluginDescriptor { name, unique, ready: false }
    }

    /// Builds a descriptor with an explicit initial readiness report.
    pub fn with_ready(name: String, unique: bool, ready: bool) -> (d: PluginDescriptor)
        ensures
            d@ == (DescModel { name: name@, unique, ready }),
    {
        PluginDescriptor { name, unique, ready }
    }

    /// The name under which this descriptor is registered.
    pub fn name(&self) -> (r: &String)
        ensures
            r@ == self@.name,
    {
        &self.name
    }

    /// Whether at most one descriptor of this name may be registered.
    pub fn is_unique(&self) -> (r: bool)
        ensures
            r == self@.unique,
    {
        self.unique
    }

    /// The latest readiness report for this descriptor.
    pub fn ready(&self) -> (r: bool)
        ensures
            r == self@.ready,
    {
        self.ready
    }

    /// Records the result of a readiness poll.
    pub fn set_ready(&mut self, ready: bool)
        ensures
            final(self)@ == (DescModel { ready, ..old(self)@ }),
    {
        self.ready = ready;
    }

    /// A copy of this descriptor.
    pub fn duplicate(&self) -> (d: PluginDescriptor)
        ensures
            d@ == self@,
    {
        PluginDescriptor {
            name: self.name.clone(),
            unique: self.unique,
            ready: self.ready,
        }
    }
}

/// The capability set a plugin author implements.
///
/// The embedding application extracts a [`PluginDescriptor`] from a value of
/// an implementing type (via [`Plugin::name`] and [`Plugin::is_unique`]),
/// admits the descriptor through the composition protocol, and drives the
/// hooks in the order recorded by the verified engine's hook log.
pub trait Plugin {
    /// Configures the application this plugin is added to. Runs once,
    /// eagerly, at admission, while the plugin's registry slot holds a
    /// placeholder: a lookup of the plugin's own name from inside this
    /// hook reports it as not yet available, and re-registering the name
    /// is refused.
    fn build(&self, app: &mut crate::app::App);

    /// Has the plugin finished its setup? Polled by the lifecycle driver;
    /// the application leaves the Adding state only once every registered
    /// plugin reports true in the same poll.
    fn ready(&self, _app: &crate::app::App) -> bool {
        true
    }

    /// Runs once all registered plugins are ready.
    fn finish(&self, _app: &mut crate::app::App) {
    }

    /// Runs after all plugins are built and finished.
    fn cleanup(&self, _app: &mut crate::app::App) {
    }

    /// The name used for duplicate detection. Two plugins are considered
    /// the same exactly when their names are equal.
    fn name(&self) -> String;

    /// Whether the plugin may be added at most once. Defaults to true;
    /// plugins that can meaningfully be instantiated several times
    /// return false.
    fn is_unique(&self) -> bool {
        true
    }
}

} // verus!
