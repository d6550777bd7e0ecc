//! Admission protocol behaviour: flattening order, duplicate policies, and
//! the re-entrant registration guard.

use plugin_registry::AdmissionPolicy;
use plugin_registry::App;
use plugin_registry::AppError;
use plugin_registry::PluginRegistry;
use plugin_registry::HookKind;
use plugin_registry::PluginDescriptor;
use plugin_registry::PluginGroup;
use plugin_registry::PluginsState;

fn unique(name: &str) -> PluginDescriptor {
    PluginDescriptor::new(name.to_string(), true)
}

fn shared(name: &str) -> PluginDescriptor {
    PluginDescriptor::new(name.to_string(), false)
}

#[test]
fn strict_tuple_and_group_flatten_in_order() {
    let mut app = App::new();
    let mut group = PluginGroup::new();
    group.add("PluginA".to_string(), unique("PluginA"));
    group.add("PluginB".to_string(), unique("PluginB"));
    let r = app.add((unique("PluginX"), group));
    assert!(r.is_ok());
    assert_eq!(app.plugin_names(), vec!["PluginX", "PluginA", "PluginB"]);
    assert_eq!(app.plugin_count(), 3);
    assert_eq!(app.current_state(), PluginsState::Adding);
    let log = app.hook_log();
    assert_eq!(log.len(), 3);
    for (event, name) in log.iter().zip(["PluginX", "PluginA", "PluginB"]) {
        assert_eq!(event.kind, HookKind::Build);
        assert_eq!(event.name, name);
    }
}

#[test]
fn strict_duplicate_errs_and_leaves_registry_unchanged() {
    let mut app = App::new();
    assert!(app.add(unique("N")).is_ok());
    let r = app.add(unique("N"));
    assert_eq!(
        r,
        Err(AppError::DuplicatePlugin { plugin_name: "N".to_string() })
    );
    assert_eq!(app.plugin_names(), vec!["N"]);
    assert_eq!(app.hook_log().len(), 1);
}

#[test]
fn strict_duplicate_keeps_admitted_prefix() {
    let mut app = App::new();
    assert!(app.add(unique("A")).is_ok());
    let r = app.add((unique("B"), unique("A"), unique("C")));
    assert!(r.is_err());
    assert_eq!(app.plugin_names(), vec!["A", "B"]);
}

#[test]
fn add_if_new_skips_duplicate_and_builds_once() {
    let mut app = App::new();
    assert!(app.add_if_new(unique("N")).is_ok());
    assert!(app.add_if_new(unique("N")).is_ok());
    assert_eq!(app.plugin_names(), vec!["N"]);
    let log = app.hook_log();
    assert_eq!(log.len(), 1);
    assert_eq!(log[0].kind, HookKind::Build);
    assert_eq!(log[0].name, "N");
}

#[test]
fn shared_plugin_admitted_repeatedly() {
    let mut app = App::new();
    for _ in 0..3 {
        assert!(app.add(shared("S")).is_ok());
    }
    assert_eq!(app.plugin_names(), vec!["S", "S", "S"]);
    let log = app.hook_log();
    assert_eq!(log.len(), 3);
    for event in log.iter() {
        assert_eq!(event.kind, HookKind::Build);
        assert_eq!(event.name, "S");
    }
}

#[test]
fn lookups_distinguish_names() {
    let mut app = App::new();
    assert!(app.add(unique("Alpha")).is_ok());
    assert!(app.is_plugin_added("Alpha"));
    assert!(!app.is_plugin_added("Beta"));
    assert!(!app.is_plugin_added("Alph"));
    let p = app.get_plugin("Alpha").expect("admitted plugin");
    assert_eq!(p.name(), "Alpha");
    assert!(p.is_unique());
    assert!(app.get_plugin("Beta").is_none());
}

#[test]
fn reentrant_registration_is_refused_under_both_policies() {
    let mut app = App::new();
    let begun = app.begin_register("X".to_string(), true, AdmissionPolicy::Strict);
    assert_eq!(begun, Ok(true));
    // While X is mid-build its slot holds a placeholder: the plugin is not
    // yet available, and registering the same name again is fatal.
    assert!(!app.is_plugin_added("X"));
    assert_eq!(
        app.register(unique("X"), AdmissionPolicy::Strict),
        Err(AppError::DuplicatePlugin { plugin_name: "X".to_string() })
    );
    assert_eq!(
        app.register(unique("X"), AdmissionPolicy::Idempotent),
        Err(AppError::DuplicatePlugin { plugin_name: "X".to_string() })
    );
    assert!(app.complete_register(unique("X")));
    assert!(app.is_plugin_added("X"));
    assert_eq!(app.plugin_names(), vec!["X"]);
}

#[test]
fn begin_register_skips_duplicates_only_when_idempotent() {
    let mut app = App::new();
    assert!(app.add(unique("X")).is_ok());
    assert_eq!(
        app.begin_register("X".to_string(), true, AdmissionPolicy::Idempotent),
        Ok(false)
    );
    assert_eq!(
        app.begin_register("X".to_string(), true, AdmissionPolicy::Strict),
        Err(AppError::DuplicatePlugin { plugin_name: "X".to_string() })
    );
    assert!(!app.complete_register(unique("X")));
}

#[test]
fn duplicate_error_describes_itself() {
    let e = AppError::DuplicatePlugin { plugin_name: "N".to_string() };
    assert_eq!(e.describe(), "duplicate plugin: N");
}

#[test]
fn registry_applies_the_policies_directly() {
    let mut registry = PluginRegistry::new();
    assert_eq!(registry.register(unique("N"), AdmissionPolicy::Strict), Ok(true));
    assert!(registry.contains("N"));
    assert_eq!(registry.len(), 1);
    assert_eq!(
        registry.register(unique("N"), AdmissionPolicy::Strict),
        Err(AppError::DuplicatePlugin { plugin_name: "N".to_string() })
    );
    assert_eq!(registry.register(unique("N"), AdmissionPolicy::Idempotent), Ok(false));
    assert_eq!(registry.register(shared("M"), AdmissionPolicy::Strict), Ok(true));
    assert_eq!(registry.register(shared("M"), AdmissionPolicy::Strict), Ok(true));
    assert_eq!(registry.len(), 3);
    assert!(registry.get("M").is_some());
    assert!(registry.get("Q").is_none());
}
