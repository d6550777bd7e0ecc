//! Plugin group editing: relative insertion, disabling, replacement, and
//! the flattened order a group admits.

use plugin_registry::App;
use plugin_registry::GroupBuildError;
use plugin_registry::PluginDescriptor;
use plugin_registry::PluginGroup;

fn desc(name: &str) -> PluginDescriptor {
    PluginDescriptor::new(name.to_string(), true)
}

fn admitted_names(group: PluginGroup) -> Vec<String> {
    let mut app = App::new();
    assert!(app.add(group).is_ok());
    app.plugin_names()
}

#[test]
fn add_before_inserts_at_anchor() {
    let mut group = PluginGroup::new();
    group.add("A".to_string(), desc("A"));
    group.add("B".to_string(), desc("B"));
    assert!(group.add_before("B", "C".to_string(), desc("C")).is_ok());
    assert_eq!(admitted_names(group), vec!["A", "C", "B"]);
}

#[test]
fn disabling_removes_from_flattening_only() {
    let mut group = PluginGroup::new();
    group.add("A".to_string(), desc("A"));
    group.add("B".to_string(), desc("B"));
    assert!(group.add_before("B", "C".to_string(), desc("C")).is_ok());
    assert!(group.set_enabled("B", false).is_ok());
    assert!(group.contains("B"));
    assert_eq!(group.len(), 3);
    assert_eq!(admitted_names(group), vec!["A", "C"]);
}

#[test]
fn add_after_inserts_past_anchor() {
    let mut group = PluginGroup::new();
    group.add("A".to_string(), desc("A"));
    group.add("B".to_string(), desc("B"));
    assert!(group.add_after("A", "C".to_string(), desc("C")).is_ok());
    assert_eq!(admitted_names(group), vec!["A", "C", "B"]);
}

#[test]
fn missing_anchor_is_an_error() {
    let mut group = PluginGroup::new();
    group.add("A".to_string(), desc("A"));
    assert_eq!(
        group.add_before("missing", "C".to_string(), desc("C")),
        Err(GroupBuildError::AnchorNotFound { name: "missing".to_string() })
    );
    assert_eq!(
        group.add_after("missing", "C".to_string(), desc("C")),
        Err(GroupBuildError::AnchorNotFound { name: "missing".to_string() })
    );
    assert_eq!(
        group.set_enabled("missing", false),
        Err(GroupBuildError::AnchorNotFound { name: "missing".to_string() })
    );
    assert_eq!(admitted_names(group), vec!["A"]);
}

#[test]
fn re_adding_a_name_replaces_in_place() {
    let mut group = PluginGroup::new();
    group.add("A".to_string(), desc("A"));
    group.add("B".to_string(), desc("B"));
    group.add("A".to_string(), PluginDescriptor::new("A".to_string(), false));
    assert_eq!(group.len(), 2);
    let mut app = App::new();
    assert!(app.add(group).is_ok());
    assert_eq!(app.plugin_names(), vec!["A", "B"]);
    let a = app.get_plugin("A").expect("admitted plugin");
    assert!(!a.is_unique());
}

#[test]
fn disabled_entry_can_be_re_enabled() {
    let mut group = PluginGroup::new();
    group.add("A".to_string(), desc("A"));
    group.add("B".to_string(), desc("B"));
    assert!(group.set_enabled("A", false).is_ok());
    assert!(group.set_enabled("A", true).is_ok());
    assert_eq!(admitted_names(group), vec!["A", "B"]);
}
