//! The plugin registry: an ordered sequence of named slots, each either a
//! placeholder for a registration still running its build hook, or an
//! admitted descriptor.

use vstd::prelude::*;
use crate::errors::AppError;
use crate::plugin::DescModel;
use crate::plugin::PluginDescriptor;

verus! {

/// How a duplicate admission is handled.
#[derive(PartialEq, Eq, Structural, Debug, Clone, Copy)]
pub enum AdmissionPolicy {
    /// A duplicate admission is an error; the failing admission aborts.
    Strict,
    /// A duplicate admission is silently skipped.
    Idempotent,
}

/// The mathematical model of one registry slot.
pub ghost struct EntryModel {
    pub name: Seq<char>,
    pub unique: bool,
    /// True while the registration that claimed this slot is still running
    /// its build hook; the slot then holds no descriptor yet.
    pub placeholder: bool,
    pub ready: bool,
}

/// One slot of the registry: either a placeholder claimed by an in-progress
/// registration, or the admitted descriptor.
pub enum RegistryEntry {
    /// The registration that claimed this slot is still mid-build.
    Placeholder { name: String, unique: bool },
    /// The slot holds an admitted descriptor.
    Occupied { plugin: PluginDescriptor },
}

impl View for RegistryEntry {
    type V = EntryModel;

    open spec fn view(&self) -> EntryModel {
        match self {
            RegistryEntry::Placeholder { name, unique } => EntryModel {
                name: name@,
                unique: *unique,
                placeholder: true,
                ready: false,
            },
            RegistryEntry::Occupied { plugin } => EntryModel {
                name: plugin@.name,
                unique: plugin@.unique,
                placeholder: false,
                ready: plugin@.ready,
            },
        }
    }
}

/// The slot an admitted descriptor occupies.
pub open spec fn occupied_entry(d: DescModel) -> EntryModel {
    EntryModel { name: d.name, unique: d.unique, placeholder: false, ready: d.ready }
}

/// The slot a beginning registration claims.
pub open spec fn placeholder_entry(name: Seq<char>, unique: bool) -> EntryModel {
    EntryModel { name, unique, placeholder: true, ready: false }
}

/// Some slot is a placeholder of this name: a registration of the name is
/// still running its build hook.
pub open spec fn has_placeholder_in(s: Seq<EntryModel>, name: Seq<char>) -> bool {
    exists|i: int| 0 <= i < s.len() && s[i].placeholder && s[i].name == name
}

/// Some slot holds an admitted descriptor of this name that declared
/// itself unique.
pub open spec fn has_unique_occupied_in(s: Seq<EntryModel>, name: Seq<char>) -> bool {
    exists|i: int| 0 <= i < s.len() && !s[i].placeholder && s[i].unique && s[i].name == name
}

/// Some slot holds an admitted descriptor of this name. A placeholder does
/// not count: a plugin whose build hook is still running is not yet
/// available.
pub open spec fn has_occupied_in(s: Seq<EntryModel>, name: Seq<char>) -> bool {
    exists|i: int| 0 <= i < s.len() && !s[i].placeholder && s[i].name == name
}

/// Every slot holds an admitted descriptor whose latest readiness poll
/// reported true.
pub open spec fn all_ready_in(s: Seq<EntryModel>) -> bool {
    forall|i: int| 0 <= i < s.len() ==> !s[i].placeholder && s[i].ready
}

/// The names of all slots, in registration order.
pub open spec fn entry_names(s: Seq<EntryModel>) -> Seq<Seq<char>>
    decreases s.len(),
{
    if s.len() == 0 {
        Seq::empty()
    } else {
        entry_names(s.drop_last()).push(s.last().name)
    }
}

/// The names of the slots holding admitted descriptors, in registration
/// order.
pub open spec fn occupied_names(s: Seq<EntryModel>) -> Seq<Seq<char>>
    decreases s.len(),
{
    if s.len() == 0 {
        Seq::empty()
    } else if s.last().placeholder {
        occupied_names(s.drop_last())
    } else {
        occupied_names(s.drop_last()).push(s.last().name)
    }
}

/// The registry after every admitted descriptor of the given name records
/// a fresh readiness poll result.
pub open spec fn set_ready_seq(s: Seq<EntryModel>, name: Seq<char>, ready: bool) -> Seq<
    EntryModel,
> {
    Seq::new(
        s.len(),
        |i: int|
            if !s[i].placeholder && s[i].name == name {
                EntryModel { ready, ..s[i] }
            } else {
                s[i]
            },
    )
}

/// What one registration does to the registry.
pub ghost enum RegisterOutcomeModel {
    /// The descriptor was appended at the end of the order.
    Added,
    /// A duplicate was skipped under the idempotent policy.
    Skipped,
    /// The registration was refused: a strict duplicate, or a name whose
    /// earlier registration is still mid-build.
    Refused,
}

/// One registration step. A name still mid-build is refused under either
/// policy; a duplicate of an admitted unique descriptor is refused under
/// the strict policy and skipped under the idempotent one; otherwise the
/// descriptor is appended at the end of the order.
pub open spec fn register_step(
    s: Seq<EntryModel>,
    d: DescModel,
    policy: AdmissionPolicy,
) -> (Seq<EntryModel>, RegisterOutcomeModel) {
    if has_placeholder_in(s, d.name) {
        (s, RegisterOutcomeModel::Refused)
    } else if d.unique && has_unique_occupied_in(s, d.name) {
        if policy is Strict {
            (s, RegisterOutcomeModel::Refused)
        } else {
            (s, RegisterOutcomeModel::Skipped)
        }
    } else {
        (s.push(occupied_entry(d)), RegisterOutcomeModel::Added)
    }
}

/// Appending a slot appends exactly its name to the name list.
pub proof fn lemma_entry_names_push(s: Seq<EntryModel>, e: EntryModel)
    ensures
        entry_names(s.push(e)) == entry_names(s).push(e.name),
{
    assert(s.push(e).drop_last() =~= s);
    assert(s.push(e).last() == e);
}

/// An entry of this name exists, placeholder or admitted.
pub open spec fn has_entry_named_in(s: Seq<EntryModel>, name: Seq<char>) -> bool {
    exists|i: int| 0 <= i < s.len() && s[i].name == name
}

/// Appending a slot extends `has_occupied_in` by exactly that slot.
pub proof fn lemma_has_occupied_push(s: Seq<EntryModel>, e: EntryModel, name: Seq<char>)
    ensures
        has_occupied_in(s.push(e), name) == (has_occupied_in(s, name) || (!e.placeholder && e.name
            == name)),
{
    if has_occupied_in(s, name) {
        let w = choose|i: int| 0 <= i < s.len() && !s[i].placeholder && s[i].name == name;
        assert(s.push(e)[w] == s[w]);
    }
    if !e.placeholder && e.name == name {
        assert(s.push(e)[s.len() as int] == e);
    }
    if has_occupied_in(s.push(e), name) {
        let w = choose|i: int|
            0 <= i < s.push(e).len() && !s.push(e)[i].placeholder && s.push(e)[i].name == name;
        if w < s.len() {
            assert(s[w] == s.push(e)[w]);
        }
    }
}

/// Appending a slot extends `has_placeholder_in` by exactly that slot.
pub proof fn lemma_has_placeholder_push(s: Seq<EntryModel>, e: EntryModel, name: Seq<char>)
    ensures
        has_placeholder_in(s.push(e), name) == (has_placeholder_in(s, name) || (e.placeholder
            && e.name == name)),
{
    if has_placeholder_in(s, name) {
        let w = choose|i: int| 0 <= i < s.len() && s[i].placeholder && s[i].name == name;
        assert(s.push(e)[w] == s[w]);
    }
    if e.placeholder && e.name == name {
        assert(s.push(e)[s.len() as int] == e);
    }
    if has_placeholder_in(s.push(e), name) {
        let w = choose|i: int|
            0 <= i < s.push(e).len() && s.push(e)[i].placeholder && s.push(e)[i].name == name;
        if w < s.len() {
            assert(s[w] == s.push(e)[w]);
        }
    }
}

/// Appending a slot extends `has_unique_occupied_in` by exactly that slot.
pub proof fn lemma_has_unique_occupied_push(s: Seq<EntryModel>, e: EntryModel, name: Seq<char>)
    ensures
        has_unique_occupied_in(s.push(e), name) == (has_unique_occupied_in(s, name) || (
        !e.placeholder && e.unique && e.name == name)),
{
    if has_unique_occupied_in(s, name) {
        let w = choose|i: int|
            0 <= i < s.len() && !s[i].placeholder && s[i].unique && s[i].name == name;
        assert(s.push(e)[w] == s[w]);
    }
    if !e.placeholder && e.unique && e.name == name {
        assert(s.push(e)[s.len() as int] == e);
    }
    if has_unique_occupied_in(s.push(e), name) {
        let w = choose|i: int|
            0 <= i < s.push(e).len() && !s.push(e)[i].placeholder && s.push(e)[i].unique && s.push(
                e,
            )[i].name == name;
        if w < s.len() {
            assert(s[w] == s.push(e)[w]);
        }
    }
}

/// Appending a slot extends `has_entry_named_in` by exactly that slot.
pub proof fn lemma_has_entry_named_push(s: Seq<EntryModel>, e: EntryModel, name: Seq<char>)
    ensures
        has_entry_named_in(s.push(e), name) == (has_entry_named_in(s, name) || e.name == name),
{
    if has_entry_named_in(s, name) {
        let w = choose|i: int| 0 <= i < s.len() && s[i].name == name;
        assert(s.push(e)[w] == s[w]);
    }
    if e.name == name {
        assert(s.push(e)[s.len() as int] == e);
    }
    if has_entry_named_in(s.push(e), name) {
        let w = choose|i: int| 0 <= i < s.push(e).len() && s.push(e)[i].name == name;
        if w < s.len() {
            assert(s[w] == s.push(e)[w]);
        }
    }
}

/// Relies on `str`'s `PartialEq`: two string slices are equal exactly when
/// their character sequences are equal.
#[verifier::external_body]
pub(crate) fn str_eq(a: &str, b: &str) -> (r: bool)
    ensures
        r == (a@ == b@),
{
    a == b
}

/// The ordered plugin registry. Insertion order is preserved and
/// semantically meaningful: hooks run in registration order.
pub struct PluginRegistry {
    entries: Vec<RegistryEntry>,
}

impl View for PluginRegistry {
    type V = Seq<EntryModel>;

    closed spec fn view(&self) -> Seq<EntryModel> {
        self.entries@.map_values(|e: RegistryEntry| e@)
    }
}

impl PluginRegistry {
    /// An empty registry.
    pub fn new() -> (r: PluginRegistry)
        ensures
            r@ == Seq::<EntryModel>::empty(),
    {
        let r = PluginRegistry { entries: Vec::new() };
        proof {
            assert(r@ =~= Seq::<EntryModel>::empty());
        }
        r
    }

    /// The number of slots, placeholders included.
    pub fn len(&self) -> (n: usize)
        ensures
            n == self@.len(),
    {
        self.entries.len()
    }

    /// Whether a registration of this name is still running its build hook.
    pub fn mid_build(&self, name: &str) -> (r: bool)
        ensures
            r == has_placeholder_in(self@, name@),
    {
        let n = self.entries.len();
        let mut i: usize = 0;
        while i < n
            invariant
                n == self@.len(),
                i <= n,
                forall|j: int| 0 <= j < i ==> !(self@[j].placeholder && self@[j].name == name@),
            decreases n - i,
        {
            match &self.entries[i] {
                RegistryEntry::Placeholder { name: slot_name, unique: _ } => {
                    if str_eq(slot_name.as_str(), name) {
                        proof {
                            assert(self@[i as int].placeholder && self@[i as int].name == name@);
                        }
                        return true;
                    }
                },
                RegistryEntry::Occupied { .. } => {},
            }
            i += 1;
        }
        false
    }

    /// Whether an admitted unique descriptor of this name exists.
    pub fn has_unique(&self, name: &str) -> (r: bool)
        ensures
            r == has_unique_occupied_in(self@, name@),
    {
        let n = self.entries.len();
        let mut i: usize = 0;
        while i < n
            invariant
                n == self@.len(),
                i <= n,
                forall|j: int|
                    0 <= j < i ==> !(!self@[j].placeholder && self@[j].unique && self@[j].name
                        == name@),
            decreases n - i,
        {
            match &self.entries[i] {
                RegistryEntry::Occupied { plugin } => {
                    if plugin.is_unique() && str_eq(plugin.name().as_str(), name) {
                        proof {
                            assert(!self@[i as int].placeholder && self@[i as int].unique
                                && self@[i as int].name == name@);
                        }
                        return true;
                    }
                },
                RegistryEntry::Placeholder { .. } => {},
            }
            i += 1;
        }
        false
    }

    /// Whether an admitted descriptor of this name exists. A name whose
    /// registration is still mid-build is reported as not yet available.
    pub fn contains(&self, name: &str) -> (r: bool)
        ensures
            r == has_occupied_in(self@, name@),
    {
        let n = self.entries.len();
        let mut i: usize = 0;
        while i < n
            invariant
                n == self@.len(),
                i <= n,
                forall|j: int| 0 <= j < i ==> !(!self@[j].placeholder && self@[j].name == name@),
            decreases n - i,
        {
            match &self.entries[i] {
                RegistryEntry::Occupied { plugin } => {
                    if str_eq(plugin.name().as_str(), name) {
                        proof {
                            assert(!self@[i as int].placeholder && self@[i as int].name == name@);
                        }
                        return true;
                    }
                },
                RegistryEntry::Placeholder { .. } => {},
            }
            i += 1;
        }
        false
    }

    /// An admitted descriptor of this name, if one exists.
    pub fn get(&self, name: &str) -> (r: Option<&PluginDescriptor>)
        ensures
            (r is Some) == has_occupied_in(self@, name@),
            (match r {
                Some(p) => exists|i: int|
                    0 <= i < self@.len() && !self@[i].placeholder && self@[i] == occupied_entry(p@)
                        && p@.name == name@,
                None => true,
            }),
    {
        let n = self.entries.len();
        let mut i: usize = 0;
        while i < n
            invariant
                n == self@.len(),
                i <= n,
                forall|j: int| 0 <= j < i ==> !(!self@[j].placeholder && self@[j].name == name@),
            decreases n - i,
        {
            match &self.entries[i] {
                RegistryEntry::Occupied { plugin } => {
                    if str_eq(plugin.name().as_str(), name) {
                        proof {
                            assert(!self@[i as int].placeholder && self@[i as int]
                                == occupied_entry(plugin@));
                        }
                        return Some(plugin);
                    }
                },
                RegistryEntry::Placeholder { .. } => {},
            }
            i += 1;
        }
        None
    }

    /// Whether every slot holds an admitted descriptor that reported ready
    /// in its latest poll.
    pub fn all_ready(&self) -> (r: bool)
        ensures
            r == all_ready_in(self@),
    {
        let n = self.entries.len();
        let mut i: usize = 0;
        while i < n
            invariant
                n == self@.len(),
                i <= n,
                forall|j: int| 0 <= j < i ==> !self@[j].placeholder && self@[j].ready,
            decreases n - i,
        {
            match &self.entries[i] {
                RegistryEntry::Occupied { plugin } => {
                    if !plugin.ready() {
                        proof {
                            assert(!(!self@[i as int].placeholder && self@[i as int].ready));
                        }
                        return false;
                    }
                },
                RegistryEntry::Placeholder { .. } => {
                    proof {
                        assert(self@[i as int].placeholder);
                    }
                    return false;
                },
            }
            i += 1;
        }
        true
    }

    /// The name of the slot at this position.
    pub fn name_at(&self, i: usize) -> (r: String)
        requires
            i < self@.len(),
        ensures
            r@ == self@[i as int].name,
    {
        match &self.entries[i] {
            RegistryEntry::Placeholder { name, unique: _ } => name.clone(),
            RegistryEntry::Occupied { plugin } => plugin.name().clone(),
        }
    }

    /// The names of the admitted descriptors, in registration order.
    pub fn names(&self) -> (r: Vec<String>)
        ensures
            r@.map_values(|s: String| s@) == occupied_names(self@),
    {
        let n = self.entries.len();
        let mut out: Vec<String> = Vec::new();
        let mut i: usize = 0;
        while i < n
            invariant
                n == self@.len(),
                i <= n,
                out@.map_values(|s: String| s@) == occupied_names(self@.take(i as int)),
            decreases n - i,
        {
            proof {
                assert(self@.take(i + 1 as int).drop_last() =~= self@.take(i as int));
                assert(self@.take(i + 1 as int).last() == self@[i as int]);
            }
            match &self.entries[i] {
                RegistryEntry::Occupied { plugin } => {
                    out.push(plugin.name().clone());
                    proof {
                        assert(out@.map_values(|s: String| s@) =~= occupied_names(
                            self@.take(i + 1 as int),
                        ));
                    }
                },
                RegistryEntry::Placeholder { .. } => {
                    proof {
                        assert(out@.map_values(|s: String| s@) =~= occupied_names(
                            self@.take(i + 1 as int),
                        ));
                    }
                },
            }
            i += 1;
        }
        proof {
            assert(self@.take(n as int) =~= self@);
        }
        out
    }

    /// One registration under the given policy, as `register_step` says.
    /// On refusal the error carries the failing name and the registry is
    /// unchanged.
    pub fn register(&mut self, plugin: PluginDescriptor, policy: AdmissionPolicy) -> (r: Result<
        bool,
        AppError,
    >)
        ensures
            final(self)@ == register_step(old(self)@, plugin@, policy).0,
            (match r {
                Ok(added) => (if added {
                    register_step(old(self)@, plugin@, policy).1 is Added
                } else {
                    register_step(old(self)@, plugin@, policy).1 is Skipped
                }),
                Err(AppError::DuplicatePlugin { plugin_name }) => register_step(
                    old(self)@,
                    plugin@,
                    policy,
                ).1 is Refused && plugin_name@ == plugin@.name,
            }),
    {
        if self.mid_build(plugin.name().as_str()) {
            return Err(AppError::DuplicatePlugin { plugin_name: plugin.name().clone() });
        }
        if plugin.is_unique() && self.has_unique(plugin.name().as_str()) {
            match policy {
                AdmissionPolicy::Strict => Err(
                    AppError::DuplicatePlugin { plugin_name: plugin.name().clone() },
                ),
                AdmissionPolicy::Idempotent => Ok(false),
            }
        } else {
            let ghost prior = self@;
            let ghost d = plugin@;
            self.entries.push(RegistryEntry::Occupied { plugin });
            proof {
                assert(self@ =~= prior.push(occupied_entry(d)));
            }
            Ok(true)
        }
    }

    /// Claims a placeholder slot at the end of the order for a registration
    /// whose build hook is about to run. The same refusal and skip rules
    /// apply as for `register`.
    pub fn begin_slot(&mut self, name: String, unique: bool, policy: AdmissionPolicy) -> (r:
        Result<bool, AppError>)
        ensures
            (match r {
                Ok(added) => (if added {
                    final(self)@ == old(self)@.push(placeholder_entry(name@, unique))
                } else {
                    final(self)@ == old(self)@ && !has_placeholder_in(old(self)@, name@) && unique
                        && has_unique_occupied_in(old(self)@, name@) && policy is Idempotent
                }),
                Err(AppError::DuplicatePlugin { plugin_name }) => final(self)@ == old(self)@
                    && plugin_name@ == name@ && (has_placeholder_in(old(self)@, name@) || (unique
                    && has_unique_occupied_in(old(self)@, name@) && policy is Strict)),
            }),
            (r is Ok) == !(has_placeholder_in(old(self)@, name@) || (unique
                && has_unique_occupied_in(old(self)@, name@) && policy is Strict)),
    {
        if self.mid_build(name.as_str()) {
            return Err(AppError::DuplicatePlugin { plugin_name: name });
        }
        if unique && self.has_unique(name.as_str()) {
            match policy {
                AdmissionPolicy::Strict => Err(AppError::DuplicatePlugin { plugin_name: name }),
                AdmissionPolicy::Idempotent => Ok(false),
            }
        } else {
            let ghost prior = self@;
            let ghost nm = name@;
            self.entries.push(RegistryEntry::Placeholder { name, unique });
            proof {
                assert(self@ =~= prior.push(placeholder_entry(nm, unique)));
            }
            Ok(true)
        }
    }

    /// Fills the most recently claimed placeholder of this name with the
    /// admitted descriptor, once its build hook has returned. Returns false,
    /// changing nothing, when no placeholder of the name exists.
    pub fn occupy(&mut self, plugin: PluginDescriptor) -> (r: bool)
        ensures
            r == has_placeholder_in(old(self)@, plugin@.name),
            (if r {
                exists|i: int|
                    0 <= i < old(self)@.len() && old(self)@[i].placeholder && old(
                        self,
                    )@[i].name == plugin@.name && final(self)@ == old(self)@.update(
                        i,
                        occupied_entry(plugin@),
                    )
            } else {
                final(self)@ == old(self)@
            }),
    {
        let n = self.entries.len();
        let mut i: usize = n;
        while i > 0
            invariant
                n == old(self)@.len(),
                self@ == old(self)@,
                i <= n,
                forall|j: int|
                    i <= j < n ==> !(old(self)@[j].placeholder && old(self)@[j].name
                        == plugin@.name),
            decreases i,
        {
            i -= 1;
            let matched = match &self.entries[i] {
                RegistryEntry::Placeholder { name: slot_name, unique: _ } => str_eq(
                    slot_name.as_str(),
                    plugin.name().as_str(),
                ),
                RegistryEntry::Occupied { .. } => false,
            };
            if matched {
                let ghost d = plugin@;
                let ghost idx = i as int;
                proof {
                    assert(old(self)@[idx].placeholder && old(self)@[idx].name == d.name);
                    assert(has_placeholder_in(old(self)@, d.name));
                }
                self.entries[i] = RegistryEntry::Occupied { plugin };
                proof {
                    assert(self@ =~= old(self)@.update(idx, occupied_entry(d)));
                }
                return true;
            }
        }
        false
    }

    /// Records a fresh readiness poll result on every admitted descriptor
    /// of this name. Returns whether any such descriptor exists.
    pub fn set_ready(&mut self, name: &str, ready: bool) -> (r: bool)
        ensures
            final(self)@ == set_ready_seq(old(self)@, name@, ready),
            r == has_occupied_in(old(self)@, name@),
    {
        let n = self.entries.len();
        let mut found = false;
        let mut i: usize = 0;
        while i < n
            invariant
                n == old(self)@.len(),
                n == self@.len(),
                i <= n,
                found == has_occupied_in(old(self)@.take(i as int), name@),
                forall|j: int| 0 <= j < i ==> self@[j] == set_ready_seq(old(self)@, name@, ready)[j],
                forall|j: int| i <= j < n ==> self@[j] == old(self)@[j],
            decreases n - i,
        {
            proof {
                assert(old(self)@.take(i + 1 as int) =~= old(self)@.take(i as int).push(
                    old(self)@[i as int],
                ));
            }
            let matched = match &self.entries[i] {
                RegistryEntry::Occupied { plugin } => str_eq(plugin.name().as_str(), name),
                RegistryEntry::Placeholder { .. } => false,
            };
            if matched {
                let updated = match &self.entries[i] {
                    RegistryEntry::Occupied { plugin } => {
                        let mut p = plugin.duplicate();
                        p.set_ready(ready);
                        RegistryEntry::Occupied { plugin: p }
                    },
                    RegistryEntry::Placeholder { name: slot_name, unique } => {
                        RegistryEntry::Placeholder { name: slot_name.clone(), unique: *unique }
                    },
                };
                let ghost pre = self@;
                proof {
                    assert(updated@ == (EntryModel { ready, ..old(self)@[i as int] }));
                }
                self.entries[i] = updated;
                proof {
                    assert(self@ =~= pre.update(i as int, EntryModel { ready, ..old(self)@[i as int] }));
                    lemma_has_occupied_push(old(self)@.take(i as int), old(self)@[i as int], name@);
                }
                found = true;
            } else {
                proof {
                    lemma_has_occupied_push(old(self)@.take(i as int), old(self)@[i as int], name@);
                }
            }
            i += 1;
        }
        proof {
            assert(old(self)@.take(n as int) =~= old(self)@);
            assert(self@ =~= set_ready_seq(old(self)@, name@, ready));
        }
        found
    }
}

} // verus!
