//! Plugin groups: a named, ordered aggregation of descriptors that is
//! edited (insertions relative to an anchor, disabling of entries) and then
//! flattened into one ordered sequence for admission.

use vstd::prelude::*;
use crate::errors::GroupBuildError;
use crate::plugin::DescModel;
use crate::plugin::PluginDescriptor;
use crate::registry::str_eq;

verus! {

/// The mathematical model of one group entry.
pub ghost struct GroupEntryModel {
    pub name: Seq<char>,
    pub plugin: DescModel,
    pub enabled: bool,
}

/// One entry of a group: a name, the descriptor registered under it, and
/// whether flattening keeps the entry.
struct GroupEntry {
    name: String,
    plugin: PluginDescriptor,
    enabled: bool,
}

impl View for GroupEntry {
    type V = GroupEntryModel;

    closed spec fn view(&self) -> GroupEntryModel {
        GroupEntryModel { name: self.name@, plugin: self.plugin@, enabled: self.enabled }
    }
}

/// An entry of this name exists in the group.
pub open spec fn group_has(s: Seq<GroupEntryModel>, name: Seq<char>) -> bool {
    exists|i: int| 0 <= i < s.len() && s[i].name == name
}

/// `i` is the position of the first entry of this name.
pub open spec fn is_first_named(s: Seq<GroupEntryModel>, name: Seq<char>, i: int) -> bool {
    &&& 0 <= i < s.len()
    &&& s[i].name == name
    &&& forall|j: int| 0 <= j < i ==> s[j].name != name
}

/// The ordered sequence of descriptors a group flattens to: the descriptors
/// of its enabled entries, in the group's order.
pub open spec fn flat_group(s: Seq<GroupEntryModel>) -> Seq<DescModel>
    decreases s.len(),
{
    if s.len() == 0 {
        Seq::empty()
    } else if s.last().enabled {
        flat_group(s.drop_last()).push(s.last().plugin)
    } else {
        flat_group(s.drop_last())
    }
}

/// A named, ordered collection of plugin descriptors, edited before being
/// flattened into the registry. A group never outlives admission:
/// [`PluginGroup::build`] consumes it.
pub struct PluginGroup {
    entries: Vec<GroupEntry>,
}

impl View for PluginGroup {
    type V = Seq<GroupEntryModel>;

    closed spec fn view(&self) -> Seq<GroupEntryModel> {
        self.entries@.map_values(|e: GroupEntry| e@)
    }
}

impl PluginGroup {
    /// An empty group.
    pub fn new() -> (g: PluginGroup)
        ensures
            g@ == Seq::<GroupEntryModel>::empty(),
    {
        let g = PluginGroup { entries: Vec::new() };
        proof {
            assert(g@ =~= Seq::<GroupEntryModel>::empty());
        }
        g
    }

    /// The number of entries, disabled ones included.
    pub fn len(&self) -> (n: usize)
        ensures
            n == self@.len(),
    {
        self.entries.len()
    }

    /// Whether an entry of this name exists, enabled or not.
    pub fn contains(&self, name: &str) -> (r: bool)
        ensures
            r == group_has(self@, name@),
    {
        match self.find(name) {
            Some(_) => true,
            None => false,
        }
    }

    /// The position of the first entry of this name.
    fn find(&self, name: &str) -> (r: Option<usize>)
        ensures
            (match r {
                Some(i) => is_first_named(self@, name@, i as int),
                None => !group_has(self@, name@),
            }),
            (r is Some) == group_has(self@, name@),
    {
        let n = self.entries.len();
        let mut i: usize = 0;
        while i < n
            invariant
                n == self@.len(),
                i <= n,
                forall|j: int| 0 <= j < i ==> self@[j].name != name@,
            decreases n - i,
        {
            if str_eq(self.entries[i].name.as_str(), name) {
                proof {
                    assert(self@[i as int].name == name@);
                }
                return Some(i);
            }
            i += 1;
        }
        None
    }

    /// Appends an entry under this name, enabled. Re-adding an existing
    /// name replaces the descriptor but keeps the entry's position and its
    /// enabled flag.
    pub fn add(&mut self, name: String, plugin: PluginDescriptor)
        ensures
            (if group_has(old(self)@, name@) {
                exists|i: int|
                    is_first_named(old(self)@, name@, i) && final(self)@ == old(self)@.update(
                        i,
                        GroupEntryModel {
                            name: name@,
                            plugin: plugin@,
                            enabled: old(self)@[i].enabled,
                        },
                    )
            } else {
                final(self)@ == old(self)@.push(
                    GroupEntryModel { name: name@, plugin: plugin@, enabled: true },
                )
            }),
    {
        match self.find(name.as_str()) {
            Some(i) => {
                let ghost idx = i as int;
                let enabled = self.entries[i].enabled;
                let ghost pre = self@;
                self.entries[i] = GroupEntry { name, plugin, enabled };
                proof {
                    assert(self@ =~= pre.update(
                        idx,
                        GroupEntryModel {
                            name: old(self)@[idx].name,
                            plugin: plugin@,
                            enabled: old(self)@[idx].enabled,
                        },
                    ));
                }
            },
            None => {
                let ghost pre = self@;
                let ghost nm = name@;
                let ghost d = plugin@;
                self.entries.push(GroupEntry { name, plugin, enabled: true });
                proof {
                    assert(self@ =~= pre.push(GroupEntryModel { name: nm, plugin: d, enabled: true }));
                }
            },
        }
    }

    /// Inserts an entry, enabled, immediately before the first entry named
    /// `anchor`. Errs, changing nothing, when no entry of that name exists.
    pub fn add_before(&mut self, anchor: &str, name: String, plugin: PluginDescriptor) -> (r:
        Result<(), GroupBuildError>)
        ensures
            (match r {
                Ok(()) => exists|i: int|
                    is_first_named(old(self)@, anchor@, i) && final(self)@ == old(self)@.insert(
                        i,
                        GroupEntryModel { name: name@, plugin: plugin@, enabled: true },
                    ),
                Err(GroupBuildError::AnchorNotFound { name: missing }) => final(self)@ == old(
                    self,
                )@ && missing@ == anchor@ && !group_has(old(self)@, anchor@),
            }),
            (r is Ok) == group_has(old(self)@, anchor@),
    {
        match self.find(anchor) {
            Some(i) => {
                let ghost idx = i as int;
                let ghost pre = self@;
                let ghost nm = name@;
                let ghost d = plugin@;
                self.entries.insert(i, GroupEntry { name, plugin, enabled: true });
                proof {
                    assert(self@ =~= pre.insert(
                        idx,
                        GroupEntryModel { name: nm, plugin: d, enabled: true },
                    ));
                }
                Ok(())
            },
            None => Err(GroupBuildError::AnchorNotFound { name: anchor.to_owned() }),
        }
    }

    /// Inserts an entry, enabled, immediately after the first entry named
    /// `anchor`. Errs, changing nothing, when no entry of that name exists.
    pub fn add_after(&mut self, anchor: &str, name: String, plugin: PluginDescriptor) -> (r:
        Result<(), GroupBuildError>)
        ensures
            (match r {
                Ok(()) => exists|i: int|
                    is_first_named(old(self)@, anchor@, i) && final(self)@ == old(self)@.insert(
                        i + 1,
                        GroupEntryModel { name: name@, plugin: plugin@, enabled: true },
                    ),
                Err(GroupBuildError::AnchorNotFound { name: missing }) => final(self)@ == old(
                    self,
                )@ && missing@ == anchor@ && !group_has(old(self)@, anchor@),
            }),
            (r is Ok) == group_has(old(self)@, anchor@),
    {
        match self.find(anchor) {
            Some(i) => {
                let ghost idx = i as int;
                let ghost pre = self@;
                let ghost nm = name@;
                let ghost d = plugin@;
                let n = self.entries.len();
                proof {
                    assert(i < n);
                }
                self.entries.insert(i + 1, GroupEntry { name, plugin, enabled: true });
                proof {
                    assert(self@ =~= pre.insert(
                        idx + 1,
                        GroupEntryModel { name: nm, plugin: d, enabled: true },
                    ));
                }
                Ok(())
            },
            None => Err(GroupBuildError::AnchorNotFound { name: anchor.to_owned() }),
        }
    }

    /// Marks the first entry of this name to be kept or skipped during
    /// flattening, without removing it from the group. Errs, changing
    /// nothing, when no entry of that name exists.
    pub fn set_enabled(&mut self, name: &str, enabled: bool) -> (r: Result<(), GroupBuildError>)
        ensures
            (match r {
                Ok(()) => exists|i: int|
                    is_first_named(old(self)@, name@, i) && final(self)@ == old(self)@.update(
                        i,
                        GroupEntryModel { enabled, ..old(self)@[i] },
                    ),
                Err(GroupBuildError::AnchorNotFound { name: missing }) => final(self)@ == old(
                    self,
                )@ && missing@ == name@ && !group_has(old(self)@, name@),
            }),
            (r is Ok) == group_has(old(self)@, name@),
    {
        match self.find(name) {
            Some(i) => {
                let ghost idx = i as int;
                let ghost pre = self@;
                let slot_name = self.entries[i].name.clone();
                let plugin = self.entries[i].plugin.duplicate();
                self.entries[i] = GroupEntry { name: slot_name, plugin, enabled };
                proof {
                    assert(self@ =~= pre.update(
                        idx,
                        GroupEntryModel { enabled, ..old(self)@[idx] },
                    ));
                }
                Ok(())
            },
            None => Err(GroupBuildError::AnchorNotFound { name: name.to_owned() }),
        }
    }

    /// Resolves the group into its final ordered sequence of descriptors,
    /// skipping disabled entries. Consumes the group: a group is admitted
    /// once.
    pub fn build(self) -> (v: Vec<PluginDescriptor>)
        ensures
            v@.map_values(|p: PluginDescriptor| p@) == flat_group(self@),
    {
        let n = self.entries.len();
        let mut out: Vec<PluginDescriptor> = Vec::new();
        let mut i: usize = 0;
        proof {
            assert(out@.map_values(|p: PluginDescriptor| p@) =~= flat_group(self@.take(0)));
        }
        while i < n
            invariant
                n == self@.len(),
                i <= n,
                out@.map_values(|p: PluginDescriptor| p@) == flat_group(self@.take(i as int)),
            decreases n - i,
        {
            proof {
                assert(self@.take(i + 1 as int).drop_last() =~= self@.take(i as int));
                assert(self@.take(i + 1 as int).last() == self@[i as int]);
            }
            if self.entries[i].enabled {
                out.push(self.entries[i].plugin.duplicate());
                proof {
                    assert(out@.map_values(|p: PluginDescriptor| p@) =~= flat_group(
                        self@.take(i + 1 as int),
                    ));
                }
            } else {
                proof {
                    assert(out@.map_values(|p: PluginDescriptor| p@) =~= flat_group(
                        self@.take(i + 1 as int),
                    ));
                }
            }
            i += 1;
        }
        proof {
            assert(self@.take(n as int) =~= self@);
        }
        out
    }
}

} // verus!
