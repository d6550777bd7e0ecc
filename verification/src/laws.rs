//! The engine's composition laws, proved once and for all over the
//! admission fold and the lifecycle transitions.

use vstd::prelude::*;
use crate::app::AppModel;
use crate::app::HookKind;
use crate::app::admit_one;
use crate::app::admit_seq;
use crate::app::build_event;
use crate::app::events_named;
use crate::app::hook_events;
use crate::app::inv;
use crate::app::lemma_events_named_append;
use crate::app::lemma_hook_events_same_kind;
use crate::plugin::DescModel;
use crate::registry::AdmissionPolicy;
use crate::registry::EntryModel;
use crate::registry::entry_names;
use crate::registry::has_entry_named_in;
use crate::registry::has_occupied_in;
use crate::registry::has_placeholder_in;
use crate::registry::has_unique_occupied_in;
use crate::registry::lemma_has_entry_named_push;
use crate::registry::lemma_has_placeholder_push;
use crate::registry::lemma_has_unique_occupied_push;
use crate::registry::occupied_entry;

verus! {

/// A name that no slot carries is neither mid-build, nor admitted, nor
/// admitted as unique.
pub proof fn lemma_absent_name(s: Seq<EntryModel>, name: Seq<char>)
    requires
        !has_entry_named_in(s, name),
    ensures
        !has_placeholder_in(s, name),
        !has_unique_occupied_in(s, name),
        !has_occupied_in(s, name),
{
    if has_placeholder_in(s, name) {
        let i = choose|i: int| 0 <= i < s.len() && s[i].placeholder && s[i].name == name;
        assert(s[i].name == name);
    }
    if has_unique_occupied_in(s, name) {
        let i = choose|i: int|
            0 <= i < s.len() && !s[i].placeholder && s[i].unique && s[i].name == name;
        assert(s[i].name == name);
    }
    if has_occupied_in(s, name) {
        let i = choose|i: int| 0 <= i < s.len() && !s[i].placeholder && s[i].name == name;
        assert(s[i].name == name);
    }
}

/// For every strict admission of descriptors whose names are pairwise
/// distinct and absent from the registry, the fold succeeds, and the final
/// registry order is the registry followed by exactly the admitted
/// sequence — the literal left-to-right flattening of the input — with one
/// build event per descriptor appended to the log in the same order.
pub proof fn lemma_strict_admits_flattening(m: AppModel, ds: Seq<DescModel>)
    requires
        forall|k: int, l: int| 0 <= k < l < ds.len() ==> ds[k].name != ds[l].name,
        forall|k: int| 0 <= k < ds.len() ==> !has_entry_named_in(m.registry, #[trigger] ds[k].name),
    ensures
        admit_seq(m, ds, AdmissionPolicy::Strict).1 is None,
        admit_seq(m, ds, AdmissionPolicy::Strict).0.registry == m.registry + ds.map_values(
            |d: DescModel| occupied_entry(d),
        ),
        admit_seq(m, ds, AdmissionPolicy::Strict).0.log == m.log + ds.map_values(
            |d: DescModel| build_event(d.name),
        ),
        admit_seq(m, ds, AdmissionPolicy::Strict).0.state == m.state,
    decreases ds.len(),
{
    if ds.len() == 0 {
        assert(m.registry + ds.map_values(|d: DescModel| occupied_entry(d)) =~= m.registry);
        assert(m.log + ds.map_values(|d: DescModel| build_event(d.name)) =~= m.log);
    } else {
        let d0 = ds[0];
        lemma_absent_name(m.registry, d0.name);
        let (m1, o) = admit_one(m, d0, AdmissionPolicy::Strict);
        assert(o is Added);
        assert(m1.registry == m.registry.push(occupied_entry(d0)));
        assert(m1.log == m.log.push(build_event(d0.name)));
        let rest = ds.skip(1);
        assert(forall|k: int| 0 <= k < rest.len() ==> rest[k] == ds[k + 1]);
        assert forall|k: int| 0 <= k < rest.len() implies !has_entry_named_in(
            m1.registry,
            #[trigger] rest[k].name,
        ) by {
            lemma_has_entry_named_push(m.registry, occupied_entry(d0), rest[k].name);
            assert(ds[0].name != ds[k + 1].name);
        }
        lemma_strict_admits_flattening(m1, rest);
        assert(m1.registry + rest.map_values(|d: DescModel| occupied_entry(d)) =~= m.registry
            + ds.map_values(|d: DescModel| occupied_entry(d)));
        assert(m1.log + rest.map_values(|d: DescModel| build_event(d.name)) =~= m.log
            + ds.map_values(|d: DescModel| build_event(d.name)));
    }
}

/// Admitting a fresh unique descriptor twice under the strict policy: the
/// first admission appends it and runs its build hook; the second is
/// refused with the duplicate's name, and the registry, the log and the
/// state stay exactly as the first admission left them.
pub proof fn lemma_strict_duplicate_refused(m: AppModel, d: DescModel)
    requires
        d.unique,
        !has_entry_named_in(m.registry, d.name),
    ensures
        ({
            let (m1, o1) = admit_one(m, d, AdmissionPolicy::Strict);
            let (m2, o2) = admit_one(m1, d, AdmissionPolicy::Strict);
            &&& o1 is Added
            &&& m1.registry == m.registry.push(occupied_entry(d))
            &&& m1.log == m.log.push(build_event(d.name))
            &&& o2 is Refused
            &&& m2 == m1
        }),
{
    lemma_absent_name(m.registry, d.name);
    let (m1, o1) = admit_one(m, d, AdmissionPolicy::Strict);
    lemma_has_placeholder_push(m.registry, occupied_entry(d), d.name);
    lemma_has_unique_occupied_push(m.registry, occupied_entry(d), d.name);
}

/// Admitting a unique descriptor twice under the idempotent policy: the
/// first admission appends it and runs its build hook; the second is
/// skipped without touching the registry or the log, so exactly one entry
/// of the name exists and only the first admission's build hook ran.
pub proof fn lemma_idempotent_duplicate_skipped(m: AppModel, d: DescModel)
    requires
        d.unique,
        !has_entry_named_in(m.registry, d.name),
    ensures
        ({
            let (m1, o1) = admit_one(m, d, AdmissionPolicy::Idempotent);
            let (m2, o2) = admit_one(m1, d, AdmissionPolicy::Idempotent);
            &&& o1 is Added
            &&& m1.registry == m.registry.push(occupied_entry(d))
            &&& m1.log == m.log.push(build_event(d.name))
            &&& o2 is Skipped
            &&& m2 == m1
        }),
{
    lemma_absent_name(m.registry, d.name);
    let (m1, o1) = admit_one(m, d, AdmissionPolicy::Idempotent);
    lemma_has_placeholder_push(m.registry, occupied_entry(d), d.name);
    lemma_has_unique_occupied_push(m.registry, occupied_entry(d), d.name);
}

/// A descriptor that declares itself shared (not unique) may be admitted
/// any number of times, under either policy: every admission appends one
/// more entry and runs the build hook once more.
pub proof fn lemma_shared_admitted_repeatedly(
    m: AppModel,
    d: DescModel,
    count: nat,
    policy: AdmissionPolicy,
)
    requires
        !d.unique,
        !has_placeholder_in(m.registry, d.name),
    ensures
        admit_seq(m, Seq::new(count, |i: int| d), policy).1 is None,
        admit_seq(m, Seq::new(count, |i: int| d), policy).0.registry == m.registry + Seq::new(
            count,
            |i: int| occupied_entry(d),
        ),
        admit_seq(m, Seq::new(count, |i: int| d), policy).0.log == m.log + Seq::new(
            count,
            |i: int| build_event(d.name),
        ),
        admit_seq(m, Seq::new(count, |i: int| d), policy).0.state == m.state,
    decreases count,
{
    let ds = Seq::new(count, |i: int| d);
    if count == 0 {
        assert(m.registry + Seq::new(count, |i: int| occupied_entry(d)) =~= m.registry);
        assert(m.log + Seq::new(count, |i: int| build_event(d.name)) =~= m.log);
    } else {
        let (m1, o) = admit_one(m, d, policy);
        assert(o is Added);
        lemma_has_placeholder_push(m.registry, occupied_entry(d), d.name);
        lemma_shared_admitted_repeatedly(m1, d, (count - 1) as nat, policy);
        assert(ds.skip(1) =~= Seq::new((count - 1) as nat, |i: int| d));
        assert(m1.registry + Seq::new((count - 1) as nat, |i: int| occupied_entry(d))
            =~= m.registry + Seq::new(count, |i: int| occupied_entry(d)));
        assert(m1.log + Seq::new((count - 1) as nat, |i: int| build_event(d.name)) =~= m.log
            + Seq::new(count, |i: int| build_event(d.name)));
    }
}

/// At the Ready to Finished transition, no finish hook has run before, and
/// afterwards the finish events list every registry entry exactly once, in
/// registration order.
pub proof fn lemma_finish_runs_each_entry_once(m: AppModel)
    requires
        inv(m),
        m.state is Ready,
    ensures
        events_named(m.log, HookKind::Finish) == Seq::<Seq<char>>::empty(),
        events_named(m.log + hook_events(m.registry, HookKind::Finish), HookKind::Finish)
            == entry_names(m.registry),
{
    lemma_events_named_append(m.log, hook_events(m.registry, HookKind::Finish), HookKind::Finish);
    lemma_hook_events_same_kind(m.registry, HookKind::Finish);
    assert(events_named(m.log, HookKind::Finish) + entry_names(m.registry) =~= entry_names(
        m.registry,
    ));
}

/// At the Finished to Cleaned transition, no cleanup hook has run before,
/// and afterwards the cleanup events list every registry entry exactly
/// once, in registration order.
pub proof fn lemma_cleanup_runs_each_entry_once(m: AppModel)
    requires
        inv(m),
        m.state is Finished,
    ensures
        events_named(m.log, HookKind::Cleanup) == Seq::<Seq<char>>::empty(),
        events_named(m.log + hook_events(m.registry, HookKind::Cleanup), HookKind::Cleanup)
            == entry_names(m.registry),
{
    lemma_events_named_append(m.log, hook_events(m.registry, HookKind::Cleanup), HookKind::Cleanup);
    lemma_hook_events_same_kind(m.registry, HookKind::Cleanup);
    assert(events_named(m.log, HookKind::Cleanup) + entry_names(m.registry) =~= entry_names(
        m.registry,
    ));
}

} // verus!
