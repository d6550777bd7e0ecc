//! Lifecycle behaviour: the readiness gate, forward-only states, and the
//! finish and cleanup phases running once per entry in registration order.

use plugin_registry::App;
use plugin_registry::HookKind;
use plugin_registry::PluginDescriptor;
use plugin_registry::PluginsState;

fn not_ready(name: &str) -> PluginDescriptor {
    PluginDescriptor::new(name.to_string(), true)
}

fn ready(name: &str) -> PluginDescriptor {
    PluginDescriptor::with_ready(name.to_string(), true, true)
}

#[test]
fn advance_waits_for_every_plugin_in_one_poll() {
    let mut app = App::new();
    assert!(app.add((not_ready("PluginX"), not_ready("PluginA"), not_ready("PluginB"))).is_ok());
    assert_eq!(app.current_state(), PluginsState::Adding);
    assert_eq!(app.advance_if_ready(), PluginsState::Adding);
    assert!(app.set_plugin_ready("PluginX", true));
    assert!(app.set_plugin_ready("PluginA", true));
    assert_eq!(app.advance_if_ready(), PluginsState::Adding);
    assert!(app.set_plugin_ready("PluginB", true));
    assert_eq!(app.advance_if_ready(), PluginsState::Ready);
    assert_eq!(app.current_state(), PluginsState::Ready);
}

#[test]
fn advance_with_empty_registry_reports_ready() {
    let mut app = App::new();
    assert_eq!(app.advance_if_ready(), PluginsState::Ready);
}

#[test]
fn finish_and_cleanup_run_once_per_entry_in_order() {
    let mut app = App::new();
    assert!(app.add((ready("A"), ready("B"))).is_ok());
    assert_eq!(app.advance_if_ready(), PluginsState::Ready);
    app.finish();
    assert_eq!(app.current_state(), PluginsState::Finished);
    app.finish();
    assert_eq!(app.current_state(), PluginsState::Finished);
    app.cleanup();
    assert_eq!(app.current_state(), PluginsState::Cleaned);
    app.cleanup();
    assert_eq!(app.current_state(), PluginsState::Cleaned);
    let log = app.hook_log();
    let recorded: Vec<(HookKind, &str)> =
        log.iter().map(|e| (e.kind, e.name.as_str())).collect();
    assert_eq!(
        recorded,
        vec![
            (HookKind::Build, "A"),
            (HookKind::Build, "B"),
            (HookKind::Finish, "A"),
            (HookKind::Finish, "B"),
            (HookKind::Cleanup, "A"),
            (HookKind::Cleanup, "B"),
        ]
    );
}

#[test]
fn phases_out_of_order_change_nothing() {
    let mut app = App::new();
    assert!(app.add(ready("A")).is_ok());
    // Finish and cleanup act only in their own source state: the state
    // machine never skips Ready, and never regresses.
    app.finish();
    assert_eq!(app.current_state(), PluginsState::Adding);
    app.cleanup();
    assert_eq!(app.current_state(), PluginsState::Adding);
    assert_eq!(app.hook_log().len(), 1);
    assert_eq!(app.advance_if_ready(), PluginsState::Ready);
    app.cleanup();
    assert_eq!(app.current_state(), PluginsState::Ready);
    app.finish();
    app.cleanup();
    assert_eq!(app.current_state(), PluginsState::Cleaned);
    assert_eq!(app.advance_if_ready(), PluginsState::Cleaned);
}

#[test]
fn readiness_poll_is_recorded_per_name() {
    let mut app = App::new();
    assert!(app.add((not_ready("A"), not_ready("B"))).is_ok());
    assert!(app.set_plugin_ready("A", true));
    assert!(!app.set_plugin_ready("C", true));
    assert_eq!(app.advance_if_ready(), PluginsState::Adding);
    assert!(app.set_plugin_ready("B", true));
    assert!(app.set_plugin_ready("A", false));
    assert_eq!(app.advance_if_ready(), PluginsState::Adding);
    assert!(app.set_plugin_ready("A", true));
    assert_eq!(app.advance_if_ready(), PluginsState::Ready);
}

#[test]
fn tuple_with_group_reaches_ready_only_when_all_report_ready() {
    let mut app = App::new();
    let mut group = plugin_registry::PluginGroup::new();
    group.add("PluginA".to_string(), not_ready("PluginA"));
    group.add("PluginB".to_string(), not_ready("PluginB"));
    assert!(app.add((not_ready("PluginX"), group)).is_ok());
    assert_eq!(app.plugin_names(), vec!["PluginX", "PluginA", "PluginB"]);
    assert_eq!(app.current_state(), PluginsState::Adding);
    assert!(app.set_plugin_ready("PluginX", true));
    assert!(app.set_plugin_ready("PluginA", true));
    assert_eq!(app.advance_if_ready(), PluginsState::Adding);
    assert!(app.set_plugin_ready("PluginB", true));
    assert_eq!(app.advance_if_ready(), PluginsState::Ready);
}
