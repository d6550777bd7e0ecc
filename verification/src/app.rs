//! The application: the plugin registry, the hook log, and the lifecycle
//! state machine (Adding, Ready, Finished, Cleaned).

use vstd::prelude::*;
use crate::errors::AppError;
use crate::plugin::DescModel;
use crate::plugin::PluginDescriptor;
use crate::plugin::PluginsState;
use crate::plugin::state_index;
use crate::plugin::state_leq;
use crate::registry::AdmissionPolicy;
use crate::registry::EntryModel;
use crate::registry::PluginRegistry;
use crate::registry::RegisterOutcomeModel;
use crate::registry::all_ready_in;
use crate::registry::entry_names;
use crate::registry::has_occupied_in;
use crate::registry::has_placeholder_in;
use crate::registry::has_unique_occupied_in;
use crate::registry::lemma_entry_names_push;
use crate::registry::occupied_entry;
use crate::registry::occupied_names;
use crate::registry::placeholder_entry;
use crate::registry::register_step;
use crate::registry::set_ready_seq;

verus! {

/// Which lifecycle hook an event records.
#[derive(PartialEq, Eq, Structural, Debug, Clone, Copy)]
pub enum HookKind {
    /// The plugin's build hook ran at admission.
    Build,
    /// The plugin's finish hook ran at the Ready to Finished transition.
    Finish,
    /// The plugin's cleanup hook ran at the Finished to Cleaned transition.
    Cleanup,
}

/// The mathematical model of one hook invocation.
pub ghost struct EventModel {
    pub kind: HookKind,
    pub name: Seq<char>,
}

/// One recorded hook invocation: which hook, and the name of the plugin it
/// belongs to. The log lists invocations in the order they happen; an
/// embedding that runs real plugin code replays the log against it.
pub struct HookEvent {
    pub kind: HookKind,
    pub name: String,
}

impl View for HookEvent {
    type V = EventModel;

    open spec fn view(&self) -> EventModel {
        EventModel { kind: self.kind, name: self.name@ }
    }
}

/// A build event for this name.
pub open spec fn build_event(name: Seq<char>) -> EventModel {
    EventModel { kind: HookKind::Build, name }
}

/// The names of the events of this kind, in log order.
pub open spec fn events_named(log: Seq<EventModel>, k: HookKind) -> Seq<Seq<char>>
    decreases log.len(),
{
    if log.len() == 0 {
        Seq::empty()
    } else if log.last().kind == k {
        events_named(log.drop_last(), k).push(log.last().name)
    } else {
        events_named(log.drop_last(), k)
    }
}

/// One event of this kind for every slot, in registration order.
pub open spec fn hook_events(s: Seq<EntryModel>, k: HookKind) -> Seq<EventModel>
    decreases s.len(),
{
    if s.len() == 0 {
        Seq::empty()
    } else {
        hook_events(s.drop_last(), k).push(EventModel { kind: k, name: s.last().name })
    }
}

/// No slot is a placeholder.
pub open spec fn no_placeholders(s: Seq<EntryModel>) -> bool {
    forall|i: int| 0 <= i < s.len() ==> !s[i].placeholder
}

/// The mathematical model of the application: its lifecycle state, the
/// registry's slots in registration order, and the hook log.
pub ghost struct AppModel {
    pub state: PluginsState,
    pub registry: Seq<EntryModel>,
    pub log: Seq<EventModel>,
}

/// One admission step on the application: the registry step of
/// `register_step`, plus a build event when a descriptor is added.
pub open spec fn admit_one(m: AppModel, d: DescModel, policy: AdmissionPolicy) -> (
    AppModel,
    RegisterOutcomeModel,
) {
    let (s, o) = register_step(m.registry, d, policy);
    if o is Added {
        (AppModel { state: m.state, registry: s, log: m.log.push(build_event(d.name)) }, o)
    } else {
        (m, o)
    }
}

/// Folding a sequence of descriptors into the application, left to right.
/// A refused step aborts the fold and surfaces the failing name; the
/// already-admitted prefix remains.
pub open spec fn admit_seq(m: AppModel, ds: Seq<DescModel>, policy: AdmissionPolicy) -> (
    AppModel,
    Option<Seq<char>>,
)
    decreases ds.len(),
{
    if ds.len() == 0 {
        (m, None)
    } else {
        let (m1, o) = admit_one(m, ds[0], policy);
        if o is Refused {
            (m1, Some(ds[0].name))
        } else {
            admit_seq(m1, ds.skip(1), policy)
        }
    }
}

/// The admission result an execution must report: success exactly when the
/// fold refused nothing, and otherwise the error carries the failing name.
pub open spec fn outcome_matches(r: Result<(), AppError>, e: Option<Seq<char>>) -> bool {
    match (r, e) {
        (Ok(()), Option::None) => true,
        (Err(AppError::DuplicatePlugin { plugin_name }), Option::Some(n)) => plugin_name@ == n,
        _ => false,
    }
}

/// The application's invariant, tying the log to the registry and the
/// lifecycle state:
/// - the build events list exactly the slots, in registration order (every
///   registration ran its build hook once, at admission);
/// - placeholders exist only while plugins are still being added;
/// - before the Finished state no finish hook has run; from it on, the
///   finish events list exactly the slots, in registration order;
/// - before the Cleaned state no cleanup hook has run; in it, the cleanup
///   events list exactly the slots, in registration order.
pub open spec fn inv(m: AppModel) -> bool {
    &&& events_named(m.log, HookKind::Build) == entry_names(m.registry)
    &&& (m.state is Adding || no_placeholders(m.registry))
    &&& (state_index(m.state) < 2 ==> events_named(m.log, HookKind::Finish) == Seq::<
        Seq<char>,
    >::empty())
    &&& (state_index(m.state) >= 2 ==> events_named(m.log, HookKind::Finish) == entry_names(
        m.registry,
    ))
    &&& (state_index(m.state) < 3 ==> events_named(m.log, HookKind::Cleanup) == Seq::<
        Seq<char>,
    >::empty())
    &&& (state_index(m.state) >= 3 ==> events_named(m.log, HookKind::Cleanup) == entry_names(
        m.registry,
    ))
}

/// Appending an event extends exactly the name list of its kind.
pub proof fn lemma_events_named_push(log: Seq<EventModel>, e: EventModel, k: HookKind)
    ensures
        events_named(log.push(e), k) == (if e.kind == k {
            events_named(log, k).push(e.name)
        } else {
            events_named(log, k)
        }),
{
    assert(log.push(e).drop_last() =~= log);
    assert(log.push(e).last() == e);
}

/// Slot sequences with the same names slot by slot have the same name list.
pub proof fn lemma_entry_names_pointwise(a: Seq<EntryModel>, b: Seq<EntryModel>)
    requires
        a.len() == b.len(),
        forall|i: int| 0 <= i < a.len() ==> a[i].name == b[i].name,
    ensures
        entry_names(a) == entry_names(b),
    decreases a.len(),
{
    if a.len() == 0 {
        assert(entry_names(a) =~= entry_names(b));
    } else {
        lemma_entry_names_pointwise(a.drop_last(), b.drop_last());
        assert(a.last().name == b.last().name);
        assert(entry_names(a) =~= entry_names(b));
    }
}

/// The name list of a given kind distributes over log concatenation.
pub proof fn lemma_events_named_append(l1: Seq<EventModel>, l2: Seq<EventModel>, k: HookKind)
    ensures
        events_named(l1 + l2, k) == events_named(l1, k) + events_named(l2, k),
    decreases l2.len(),
{
    if l2.len() == 0 {
        assert(l1 + l2 =~= l1);
        assert(events_named(l1, k) + events_named(l2, k) =~= events_named(l1, k));
    } else {
        lemma_events_named_append(l1, l2.drop_last(), k);
        assert((l1 + l2).drop_last() =~= l1 + l2.drop_last());
        assert((l1 + l2).last() == l2.last());
        if l2.last().kind == k {
            assert(events_named(l1, k) + events_named(l2, k) =~= (events_named(l1, k)
                + events_named(l2.drop_last(), k)).push(l2.last().name));
        }
    }
}

/// Running one hook of a kind per slot records exactly the slot names under
/// that kind.
pub proof fn lemma_hook_events_same_kind(s: Seq<EntryModel>, k: HookKind)
    ensures
        events_named(hook_events(s, k), k) == entry_names(s),
    decreases s.len(),
{
    if s.len() > 0 {
        lemma_hook_events_same_kind(s.drop_last(), k);
        lemma_events_named_push(
            hook_events(s.drop_last(), k),
            EventModel { kind: k, name: s.last().name },
            k,
        );
    }
}

/// Running hooks of one kind records nothing under another kind.
pub proof fn lemma_hook_events_other_kind(s: Seq<EntryModel>, k: HookKind, other: HookKind)
    requires
        k != other,
    ensures
        events_named(hook_events(s, k), other) == Seq::<Seq<char>>::empty(),
    decreases s.len(),
{
    if s.len() > 0 {
        lemma_hook_events_other_kind(s.drop_last(), k, other);
        lemma_events_named_push(
            hook_events(s.drop_last(), k),
            EventModel { kind: k, name: s.last().name },
            other,
        );
    }
}

/// The application: the single owner of the plugin registry and the hook
/// log, and the only mover of the lifecycle state machine.
pub struct App {
    state: PluginsState,
    registry: PluginRegistry,
    log: Vec<HookEvent>,
}

impl View for App {
    type V = AppModel;

    closed spec fn view(&self) -> AppModel {
        AppModel {
            state: self.state,
            registry: self.registry@,
            log: self.log@.map_values(|e: HookEvent| e@),
        }
    }
}

impl App {
    /// A fresh application: in the Adding state, with an empty registry and
    /// an empty hook log.
    pub fn new() -> (a: App)
        ensures
            a@.state is Adding,
            a@.registry == Seq::<EntryModel>::empty(),
            a@.log == Seq::<EventModel>::empty(),
            inv(a@),
    {
        let a = App { state: PluginsState::Adding, registry: PluginRegistry::new(), log: Vec::new() };
        proof {
            assert(a@.log =~= Seq::<EventModel>::empty());
            assert(events_named(a@.log, HookKind::Build) =~= entry_names(a@.registry));
            assert(events_named(a@.log, HookKind::Finish) =~= Seq::<Seq<char>>::empty());
            assert(events_named(a@.log, HookKind::Cleanup) =~= Seq::<Seq<char>>::empty());
        }
        a
    }

    /// The current lifecycle state.
    pub fn current_state(&self) -> (s: PluginsState)
        ensures
            s == self@.state,
    {
        self.state
    }

    /// Whether an admitted plugin of this name exists. A name whose
    /// registration is still mid-build reads as not yet available.
    pub fn is_plugin_added(&self, name: &str) -> (r: bool)
        ensures
            r == has_occupied_in(self@.registry, name@),
    {
        self.registry.contains(name)
    }

    /// An admitted descriptor of this name, if any.
    pub fn get_plugin(&self, name: &str) -> (r: Option<&PluginDescriptor>)
        ensures
            (r is Some) == has_occupied_in(self@.registry, name@),
            (match r {
                Some(p) => exists|i: int|
                    0 <= i < self@.registry.len() && !self@.registry[i].placeholder
                        && self@.registry[i] == occupied_entry(p@) && p@.name == name@,
                None => true,
            }),
    {
        let r = self.registry.get(name);
        proof {
            match r {
                Some(p) => {
                    let i = choose|i: int|
                        0 <= i < self.registry@.len() && !self.registry@[i].placeholder
                            && self.registry@[i] == occupied_entry(p@) && p@.name == name@;
                    assert(0 <= i < self@.registry.len() && !self@.registry[i].placeholder
                        && self@.registry[i] == occupied_entry(p@) && p@.name == name@);
                },
                None => {},
            }
        }
        r
    }

    /// The names of the admitted plugins, in registration order.
    pub fn plugin_names(&self) -> (r: Vec<String>)
        ensures
            r@.map_values(|s: String| s@) == occupied_names(self@.registry),
    {
        self.registry.names()
    }

    /// The number of registry slots, placeholders included.
    pub fn plugin_count(&self) -> (n: usize)
        ensures
            n == self@.registry.len(),
    {
        self.registry.len()
    }

    /// The hook invocations so far, in the order they happened.
    pub fn hook_log(&self) -> (r: &Vec<HookEvent>)
        ensures
            r@.map_values(|e: HookEvent| e@) == self@.log,
    {
        &self.log
    }

    /// Records the latest readiness poll result for every admitted plugin
    /// of this name; reports whether any exists.
    pub fn set_plugin_ready(&mut self, name: &str, ready: bool) -> (r: bool)
        requires
            inv(old(self)@),
        ensures
            inv(final(self)@),
            final(self)@.registry == set_ready_seq(old(self)@.registry, name@, ready),
            final(self)@.state == old(self)@.state,
            final(self)@.log == old(self)@.log,
            r == has_occupied_in(old(self)@.registry, name@),
    {
        let r = self.registry.set_ready(name, ready);
        proof {
            lemma_entry_names_pointwise(old(self)@.registry, self@.registry);
            assert(no_placeholders(old(self)@.registry) ==> no_placeholders(self@.registry));
        }
        r
    }

    /// One registration under the given policy, as `admit_one` says: the
    /// registry step of `register_step`, with the build hook recorded when
    /// the descriptor is added. On refusal the error carries the failing
    /// name and the application is unchanged.
    pub fn register(&mut self, plugin: PluginDescriptor, policy: AdmissionPolicy) -> (r: Result<
        bool,
        AppError,
    >)
        requires
            old(self)@.state is Adding,
            inv(old(self)@),
        ensures
            inv(final(self)@),
            final(self)@ == admit_one(old(self)@, plugin@, policy).0,
            final(self)@.state == old(self)@.state,
            (match r {
                Ok(added) => (if added {
                    admit_one(old(self)@, plugin@, policy).1 is Added
                } else {
                    admit_one(old(self)@, plugin@, policy).1 is Skipped
                }),
                Err(AppError::DuplicatePlugin { plugin_name }) => admit_one(
                    old(self)@,
                    plugin@,
                    policy,
                ).1 is Refused && plugin_name@ == plugin@.name,
            }),
    {
        let ghost d = plugin@;
        let name = plugin.name().clone();
        let r = self.registry.register(plugin, policy);
        match &r {
            Ok(added) => {
                if *added {
                    let ghost pre_log = self@.log;
                    self.log.push(HookEvent { kind: HookKind::Build, name });
                    proof {
                        assert(self@.log =~= pre_log.push(build_event(d.name)));
                        lemma_events_named_push(pre_log, build_event(d.name), HookKind::Build);
                        lemma_events_named_push(pre_log, build_event(d.name), HookKind::Finish);
                        lemma_events_named_push(pre_log, build_event(d.name), HookKind::Cleanup);
                        lemma_entry_names_push(old(self)@.registry, occupied_entry(d));
                    }
                }
            },
            Err(_) => {},
        }
        r
    }

    /// Claims a placeholder slot for a registration whose build hook is
    /// about to run, recording the build hook's start. While the slot holds
    /// the placeholder, lookups of the name report the plugin as not yet
    /// available, and registering the same name again is refused: a build
    /// hook that re-registers its own plugin is a configuration bug,
    /// surfaced fatally under either policy.
    pub fn begin_register(&mut self, name: String, unique: bool, policy: AdmissionPolicy) -> (r:
        Result<bool, AppError>)
        requires
            old(self)@.state is Adding,
            inv(old(self)@),
        ensures
            inv(final(self)@),
            final(self)@.state == old(self)@.state,
            (match r {
                Ok(added) => (if added {
                    final(self)@.registry == old(self)@.registry.push(
                        placeholder_entry(name@, unique),
                    ) && final(self)@.log == old(self)@.log.push(build_event(name@))
                } else {
                    final(self)@ == old(self)@ && !has_placeholder_in(old(self)@.registry, name@)
                        && unique && has_unique_occupied_in(old(self)@.registry, name@)
                        && policy is Idempotent
                }),
                Err(AppError::DuplicatePlugin { plugin_name }) => final(self)@ == old(self)@
                    && plugin_name@ == name@ && (has_placeholder_in(old(self)@.registry, name@) || (
                unique && has_unique_occupied_in(old(self)@.registry, name@)
                    && policy is Strict)),
            }),
            (r is Ok) == !(has_placeholder_in(old(self)@.registry, name@) || (unique
                && has_unique_occupied_in(old(self)@.registry, name@) && policy is Strict)),
    {
        let ghost nm = name@;
        let event_name = name.clone();
        let r = self.registry.begin_slot(name, unique, policy);
        match &r {
            Ok(added) => {
                if *added {
                    let ghost pre_log = self@.log;
                    self.log.push(HookEvent { kind: HookKind::Build, name: event_name });
                    proof {
                        assert(self@.log =~= pre_log.push(build_event(nm)));
                        lemma_events_named_push(pre_log, build_event(nm), HookKind::Build);
                        lemma_events_named_push(pre_log, build_event(nm), HookKind::Finish);
                        lemma_events_named_push(pre_log, build_event(nm), HookKind::Cleanup);
                        lemma_entry_names_push(
                            old(self)@.registry,
                            placeholder_entry(nm, unique),
                        );
                    }
                }
            },
            Err(_) => {},
        }
        r
    }

    /// Fills the most recently claimed placeholder of the descriptor's name
    /// once its build hook has returned. Returns false, changing nothing,
    /// when no placeholder of the name exists.
    pub fn complete_register(&mut self, plugin: PluginDescriptor) -> (r: bool)
        requires
            old(self)@.state is Adding,
            inv(old(self)@),
        ensures
            inv(final(self)@),
            final(self)@.state == old(self)@.state,
            final(self)@.log == old(self)@.log,
            r == has_placeholder_in(old(self)@.registry, plugin@.name),
            (if r {
                exists|i: int|
                    0 <= i < old(self)@.registry.len() && old(self)@.registry[i].placeholder && old(
                        self,
                    )@.registry[i].name == plugin@.name && final(self)@.registry == old(
                        self,
                    )@.registry.update(i, occupied_entry(plugin@))
            } else {
                final(self)@ == old(self)@
            }),
    {
        let ghost d = plugin@;
        let r = self.registry.occupy(plugin);
        proof {
            if r {
                let i = choose|i: int|
                    0 <= i < old(self)@.registry.len() && old(self)@.registry[i].placeholder && old(
                        self,
                    )@.registry[i].name == d.name && self@.registry == old(self)@.registry.update(
                        i,
                        occupied_entry(d),
                    );
                lemma_entry_names_pointwise(old(self)@.registry, self@.registry);
            }
        }
        r
    }

    /// Moves Adding to Ready exactly when every admitted plugin reported
    /// ready in this same poll of the whole registry (a registration still
    /// mid-build holds the transition back); otherwise, and in every other
    /// state, changes nothing. Returns the resulting state. The state never
    /// regresses.
    pub fn advance_if_ready(&mut self) -> (s: PluginsState)
        requires
            inv(old(self)@),
        ensures
            inv(final(self)@),
            s == final(self)@.state,
            final(self)@.registry == old(self)@.registry,
            final(self)@.log == old(self)@.log,
            final(self)@.state == (if old(self)@.state is Adding && all_ready_in(
                old(self)@.registry,
            ) {
                PluginsState::Ready
            } else {
                old(self)@.state
            }),
            state_leq(old(self)@.state, final(self)@.state),
    {
        match self.state {
            PluginsState::Adding => {
                if self.registry.all_ready() {
                    self.state = PluginsState::Ready;
                }
            },
            _ => {},
        }
        self.state
    }

    /// Moves Ready to Finished, recording every plugin's finish hook
    /// exactly once, in registration order; in every other state changes
    /// nothing. The state never regresses.
    pub fn finish(&mut self)
        requires
            inv(old(self)@),
        ensures
            inv(final(self)@),
            final(self)@.registry == old(self)@.registry,
            state_leq(old(self)@.state, final(self)@.state),
            (if old(self)@.state is Ready {
                final(self)@.state is Finished && final(self)@.log == old(self)@.log + hook_events(
                    old(self)@.registry,
                    HookKind::Finish,
                )
            } else {
                final(self)@ == old(self)@
            }),
    {
        match self.state {
            PluginsState::Ready => {
                self.run_phase_hooks(HookKind::Finish);
                self.state = PluginsState::Finished;
                proof {
                    lemma_events_named_append(
                        old(self)@.log,
                        hook_events(old(self)@.registry, HookKind::Finish),
                        HookKind::Build,
                    );
                    lemma_events_named_append(
                        old(self)@.log,
                        hook_events(old(self)@.registry, HookKind::Finish),
                        HookKind::Finish,
                    );
                    lemma_events_named_append(
                        old(self)@.log,
                        hook_events(old(self)@.registry, HookKind::Finish),
                        HookKind::Cleanup,
                    );
                    lemma_hook_events_same_kind(old(self)@.registry, HookKind::Finish);
                    lemma_hook_events_other_kind(
                        old(self)@.registry,
                        HookKind::Finish,
                        HookKind::Build,
                    );
                    lemma_hook_events_other_kind(
                        old(self)@.registry,
                        HookKind::Finish,
                        HookKind::Cleanup,
                    );
                    assert(events_named(self@.log, HookKind::Build) =~= entry_names(
                        self@.registry,
                    ));
                    assert(events_named(self@.log, HookKind::Finish) =~= entry_names(
                        self@.registry,
                    ));
                    assert(events_named(self@.log, HookKind::Cleanup) =~= Seq::<Seq<char>>::empty());
                }
            },
            _ => {},
        }
    }

    /// Moves Finished to Cleaned, recording every plugin's cleanup hook
    /// exactly once, in registration order; in every other state changes
    /// nothing. Cleaned is terminal. The state never regresses.
    pub fn cleanup(&mut self)
        requires
            inv(old(self)@),
        ensures
            inv(final(self)@),
            final(self)@.registry == old(self)@.registry,
            state_leq(old(self)@.state, final(self)@.state),
            (if old(self)@.state is Finished {
                final(self)@.state is Cleaned && final(self)@.log == old(self)@.log + hook_events(
                    old(self)@.registry,
                    HookKind::Cleanup,
                )
            } else {
                final(self)@ == old(self)@
            }),
    {
        match self.state {
            PluginsState::Finished => {
                self.run_phase_hooks(HookKind::Cleanup);
                self.state = PluginsState::Cleaned;
                proof {
                    lemma_events_named_append(
                        old(self)@.log,
                        hook_events(old(self)@.registry, HookKind::Cleanup),
                        HookKind::Build,
                    );
                    lemma_events_named_append(
                        old(self)@.log,
                        hook_events(old(self)@.registry, HookKind::Cleanup),
                        HookKind::Finish,
                    );
                    lemma_events_named_append(
                        old(self)@.log,
                        hook_events(old(self)@.registry, HookKind::Cleanup),
                        HookKind::Cleanup,
                    );
                    lemma_hook_events_same_kind(old(self)@.registry, HookKind::Cleanup);
                    lemma_hook_events_other_kind(
                        old(self)@.registry,
                        HookKind::Cleanup,
                        HookKind::Build,
                    );
                    lemma_hook_events_other_kind(
                        old(self)@.registry,
                        HookKind::Cleanup,
                        HookKind::Finish,
                    );
                    assert(events_named(self@.log, HookKind::Build) =~= entry_names(
                        self@.registry,
                    ));
                    assert(events_named(self@.log, HookKind::Finish) =~= entry_names(
                        self@.registry,
                    ));
                    assert(events_named(self@.log, HookKind::Cleanup) =~= entry_names(
                        self@.registry,
                    ));
                }
            },
            _ => {},
        }
    }

    /// Appends one event of the given kind per registry slot, in
    /// registration order.
    fn run_phase_hooks(&mut self, k: HookKind)
        ensures
            final(self)@.registry == old(self)@.registry,
            final(self)@.state == old(self)@.state,
            final(self)@.log == old(self)@.log + hook_events(old(self)@.registry, k),
    {
        let n = self.registry.len();
        let mut i: usize = 0;
        proof {
            assert(self@.log =~= old(self)@.log + hook_events(old(self)@.registry.take(0), k));
        }
        while i < n
            invariant
                n == old(self)@.registry.len(),
                i <= n,
                self@.registry == old(self)@.registry,
                self@.state == old(self)@.state,
                self@.log == old(self)@.log + hook_events(old(self)@.registry.take(i as int), k),
            decreases n - i,
        {
            let name = self.registry.name_at(i);
            let ghost pre_log = self@.log;
            self.log.push(HookEvent { kind: k, name });
            proof {
                assert(old(self)@.registry.take(i + 1 as int).drop_last() =~= old(
                    self,
                )@.registry.take(i as int));
                assert(old(self)@.registry.take(i + 1 as int).last() == old(self)@.registry[i as int]);
                assert(self@.log =~= pre_log.push(
                    EventModel { kind: k, name: old(self)@.registry[i as int].name },
                ));
                assert(self@.log =~= old(self)@.log + hook_events(
                    old(self)@.registry.take(i + 1 as int),
                    k,
                ));
            }
            i += 1;
        }
        proof {
            assert(old(self)@.registry.take(n as int) =~= old(self)@.registry);
        }
    }
}

} // verus!
